//! Server side of the Inertia.js protocol: the page object, the prop tree and its partial
//! reload rules, request header parsing, redirects with flash data, CSRF and flash cookie
//! decisions, the SSR circuit breaker, Vite asset tags and form field decoding.

pub mod text;
pub mod json;
pub mod path;
pub mod narrow;
pub mod num;
pub mod scroll;
pub mod props;
pub mod meta;
pub mod resolve;
pub mod page;
pub mod flash;
pub mod config;
pub mod inertia;
pub mod middleware;
pub mod csrf;
pub mod ssr;
pub mod cookie_flash;
pub mod vite;
pub mod templates;
pub mod form;
pub mod lenient;
pub mod settings;
