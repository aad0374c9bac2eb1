//! The Inertia page object, sent embedded in the root HTML or as the JSON body of an
//! Inertia response, and the markup the client mounts on.

use vstd::prelude::*;
use crate::json::JsonValue;
use crate::meta::{groups_map, pairs_map, SpecMeta};
use crate::narrow::strs;
use crate::text::push_char;

verus! {

/// The page object. Empty lists and maps, and `false` flags, are left out of its JSON.
#[derive(Debug, PartialEq, Eq)]
pub struct Page {
    /// The page component the client renders, e.g. `Users/Index`.
    pub component: String,
    /// The resolved props: a JSON object.
    pub props: JsonValue,
    /// Path and query of the request, e.g. `/users?page=2`.
    pub url: String,
    /// Asset version; an empty string when the server has no version configured.
    pub version: String,
    /// Make the client drop its history (and history encryption key).
    pub clear_history: bool,
    /// Make the client encrypt this page in `history.state`.
    pub encrypt_history: bool,
    /// Prop paths the client appends to (or shallow-merges into) its current value.
    pub merge_props: Vec<String>,
    /// Prop paths the client prepends to its current value.
    pub prepend_props: Vec<String>,
    /// Prop paths the client merges into its current value recursively.
    pub deep_merge_props: Vec<String>,
    /// `<prop>.<field>` paths: merged items with the same field replace each other.
    pub match_props_on: Vec<String>,
    /// `(group, path)` of each deferred prop, in order; the JSON lists the paths by group.
    pub deferred_props: Vec<(String, String)>,
    /// Pagination metadata of infinite scroll props, by prop path (a later entry wins).
    pub scroll_props: Vec<(String, JsonValue)>,
    /// Once props by key, `{ prop, expiresAt }` (a later entry wins).
    pub once_props: Vec<(String, JsonValue)>,
    /// Top-level keys that came from shared props.
    pub shared_props: Vec<String>,
    /// One-time data for this response (e.g. a toast after a redirect).
    pub flash: Vec<(String, JsonValue)>,
}

impl Page {
    /// The merge, deferred, scroll and once metadata of the page, mathematically.
    pub open spec fn meta(self) -> SpecMeta {
        SpecMeta {
            merge: strs(self.merge_props@),
            prepend: strs(self.prepend_props@),
            deep: strs(self.deep_merge_props@),
            match_on: strs(self.match_props_on@),
            deferred: groups_map(self.deferred_props@),
            scroll: pairs_map(self.scroll_props@),
            once: pairs_map(self.once_props@),
        }
    }

    /// A page without merge, defer, once, flash or history metadata.
    pub fn new(component: String, props: JsonValue, url: String, version: String) -> (r: Page)
        ensures
            r.component == component,
            r.props == props,
            r.url == url,
            r.version == version,
            !r.clear_history,
            !r.encrypt_history,
            r.merge_props@.len() == 0,
            r.prepend_props@.len() == 0,
            r.deep_merge_props@.len() == 0,
            r.match_props_on@.len() == 0,
            r.deferred_props@.len() == 0,
            r.scroll_props@.len() == 0,
            r.once_props@.len() == 0,
            r.shared_props@.len() == 0,
            r.flash@.len() == 0,
    {
        Page {
            component,
            props,
            url,
            version,
            clear_history: false,
            encrypt_history: false,
            merge_props: Vec::new(),
            prepend_props: Vec::new(),
            deep_merge_props: Vec::new(),
            match_props_on: Vec::new(),
            deferred_props: Vec::new(),
            scroll_props: Vec::new(),
            once_props: Vec::new(),
            shared_props: Vec::new(),
            flash: Vec::new(),
        }
    }
}

/// A flag that is left out of the page JSON.
pub fn is_false(b: &bool) -> (r: bool)
    ensures
        r == !*b,
{
    !*b
}

/// Appends `t` to `s`.
pub fn push_str(s: &mut String, t: &str)
    ensures
        final(s)@ == old(s)@ + t@,
{
    s.append(t);
}

/// The mount markup: the page data script followed by the root element.
pub open spec fn spec_mount_markup(app_id: Seq<char>, script_json: Seq<char>) -> Seq<char> {
    "<script data-page=\""@ + app_id + "\" type=\"application/json\">"@ + script_json
        + "</script><div id=\""@ + app_id + "\"></div>"@
}

/// The markup the Inertia client mounts on: the page data script followed by the root element.
pub fn mount_markup(app_id: &str, script_json: &str) -> (r: String)
    ensures
        r@ == spec_mount_markup(app_id@, script_json@),
{
    let mut r = String::new();
    push_str(&mut r, "<script data-page=\"");
    push_str(&mut r, app_id);
    push_str(&mut r, "\" type=\"application/json\">");
    push_str(&mut r, script_json);
    push_str(&mut r, "</script><div id=\"");
    push_str(&mut r, app_id);
    push_str(&mut r, "\"></div>");
    assert(r@ =~= spec_mount_markup(app_id@, script_json@));
    r
}

/// What one character becomes in page JSON embedded in a script element.
pub open spec fn tag_escape(c: char) -> Seq<char> {
    if c == '<' {
        seq!['\\', 'u', '0', '0', '3', 'c']
    } else if c == '>' {
        seq!['\\', 'u', '0', '0', '3', 'e']
    } else {
        seq![c]
    }
}

/// `s` with every `<` and `>` written as a JSON unicode escape.
pub open spec fn escape_tags(s: Seq<char>) -> Seq<char>
    decreases s.len(),
{
    if s.len() == 0 {
        Seq::empty()
    } else {
        escape_tags(s.drop_last()) + tag_escape(s.last())
    }
}

/// Escaped page JSON holds no `<` or `>`, so nothing in it can close the script element;
/// text without them is left as it is.
pub proof fn lemma_escaped_json_has_no_tags(s: Seq<char>)
    ensures
        forall|i: int| 0 <= i < escape_tags(s).len() ==> #[trigger] escape_tags(s)[i] != '<' && escape_tags(s)[i] != '>',
        (forall|i: int| 0 <= i < s.len() ==> #[trigger] s[i] != '<' && s[i] != '>') ==> escape_tags(s) == s,
    decreases s.len(),
{
    if s.len() > 0 {
        lemma_escaped_json_has_no_tags(s.drop_last());
        let a = escape_tags(s.drop_last());
        let b = tag_escape(s.last());
        assert forall|i: int| 0 <= i < (a + b).len() implies #[trigger] (a + b)[i] != '<' && (a + b)[i] != '>' by {
            if i >= a.len() {
                assert((a + b)[i] == b[i - a.len()]);
            }
        }
        if forall|i: int| 0 <= i < s.len() ==> #[trigger] s[i] != '<' && s[i] != '>' {
            assert(s.last() == s[s.len() - 1]);
            assert forall|i: int| 0 <= i < s.drop_last().len() implies #[trigger] s.drop_last()[i] != '<' && s.drop_last()[i] != '>' by {
                assert(s.drop_last()[i] == s[i]);
            }
            assert(s.drop_last().push(s.last()) =~= s);
            assert(b =~= seq![s.last()]);
        }
    }
}

/// Where a reader of JSON text stands: outside strings, inside a string, right after a
/// backslash in a string, or inside a `\uXXXX` escape with `digits` hex digits read so far,
/// worth `value`.
pub enum JsonLex {
    Outside,
    InString,
    Escape,
    Unicode(nat, nat),
}

/// The value of a hex digit.
pub open spec fn hex_digit_value(c: char) -> nat {
    if '0' <= c && c <= '9' {
        (c as u32 - 48) as nat
    } else if 'a' <= c && c <= 'f' {
        (c as u32 - 87) as nat
    } else if 'A' <= c && c <= 'F' {
        (c as u32 - 55) as nat
    } else {
        0
    }
}

/// The character a one-letter escape stands for.
pub open spec fn escaped_char(c: char) -> nat {
    if c == 'n' {
        10
    } else if c == 't' {
        9
    } else if c == 'r' {
        13
    } else if c == 'b' {
        8
    } else if c == 'f' {
        12
    } else {
        c as nat
    }
}

/// One character read in state `st`: what it contributes to what the text means (a
/// structural character outside strings, marked `false`; a code unit of string content,
/// marked `true`), and the next state.
pub open spec fn lex_step(st: JsonLex, c: char) -> (Seq<(bool, nat)>, JsonLex) {
    match st {
        JsonLex::Outside => if c == '"' {
            (seq![(false, c as nat)], JsonLex::InString)
        } else {
            (seq![(false, c as nat)], JsonLex::Outside)
        },
        JsonLex::InString => if c == '"' {
            (seq![(false, c as nat)], JsonLex::Outside)
        } else if c == '\\' {
            (Seq::empty(), JsonLex::Escape)
        } else {
            (seq![(true, c as nat)], JsonLex::InString)
        },
        JsonLex::Escape => if c == 'u' {
            (Seq::empty(), JsonLex::Unicode(0, 0))
        } else {
            (seq![(true, escaped_char(c))], JsonLex::InString)
        },
        JsonLex::Unicode(digits, value) => {
            let v = value * 16 + hex_digit_value(c);
            if digits >= 3 {
                (seq![(true, v)], JsonLex::InString)
            } else {
                (Seq::empty(), JsonLex::Unicode(digits + 1, v))
            }
        },
    }
}

/// What JSON text means to a reader starting in state `st`: its structural characters and
/// the decoded contents of its strings, in order. Texts that mean the same parse to the
/// same value.
pub open spec fn json_meaning(s: Seq<char>, st: JsonLex) -> Seq<(bool, nat)>
    decreases s.len(),
{
    if s.len() == 0 {
        Seq::empty()
    } else {
        lex_step(st, s[0]).0 + json_meaning(s.drop_first(), lex_step(st, s[0]).1)
    }
}

/// The state after reading `s` from `st`.
pub open spec fn lex_state(s: Seq<char>, st: JsonLex) -> JsonLex
    decreases s.len(),
{
    if s.len() == 0 { st } else { lex_state(s.drop_first(), lex_step(st, s[0]).1) }
}

/// Every `<` and `>` in `s` is plain string content (as in any JSON text a serializer
/// writes: they cannot stand anywhere else).
pub open spec fn tags_only_in_strings(s: Seq<char>, st: JsonLex) -> bool
    decreases s.len(),
{
    if s.len() == 0 {
        true
    } else {
        &&& ((s[0] == '<' || s[0] == '>') ==> st is InString)
        &&& tags_only_in_strings(s.drop_first(), lex_step(st, s[0]).1)
    }
}

proof fn lemma_meaning_concat(a: Seq<char>, b: Seq<char>, st: JsonLex)
    ensures
        json_meaning(a + b, st) == json_meaning(a, st) + json_meaning(b, lex_state(a, st)),
        lex_state(a + b, st) == lex_state(b, lex_state(a, st)),
    decreases a.len(),
{
    if a.len() > 0 {
        lemma_meaning_concat(a.drop_first(), b, lex_step(st, a[0]).1);
        assert((a + b).drop_first() =~= a.drop_first() + b);
        assert((a + b)[0] == a[0]);
        assert(json_meaning(a, st) + json_meaning(b, lex_state(a, st)) =~= lex_step(st, a[0]).0
            + (json_meaning(a.drop_first(), lex_step(st, a[0]).1) + json_meaning(b, lex_state(a, st))));
    } else {
        assert(a + b =~= b);
    }
}

proof fn lemma_escape_tags_front(s: Seq<char>)
    requires
        s.len() > 0,
    ensures
        escape_tags(s) == tag_escape(s[0]) + escape_tags(s.drop_first()),
    decreases s.len(),
{
    if s.len() == 1 {
        assert(s.drop_last() =~= Seq::<char>::empty());
        assert(s.drop_first() =~= Seq::<char>::empty());
        assert(escape_tags(s) =~= tag_escape(s[0]) + escape_tags(s.drop_first()));
    } else {
        lemma_escape_tags_front(s.drop_last());
        assert(s.drop_last().drop_first() =~= s.drop_first().drop_last());
        assert(s.drop_first().last() == s.last());
        assert(s.drop_last()[0] == s[0]);
        assert(escape_tags(s) =~= tag_escape(s[0]) + escape_tags(s.drop_first()));
    }
}

/// The escape written for `<` or `>` means, inside a string, that very character.
proof fn lemma_tag_escape_in_string(c: char)
    requires
        c == '<' || c == '>',
    ensures
        json_meaning(tag_escape(c), JsonLex::InString) == seq![(true, c as nat)],
        lex_state(tag_escape(c), JsonLex::InString) == JsonLex::InString,
{
    let e = tag_escape(c);
    reveal_with_fuel(json_meaning, 7);
    reveal_with_fuel(lex_state, 7);
    assert(e.drop_first().drop_first().drop_first().drop_first().drop_first().drop_first() =~= Seq::<char>::empty());
    if c == '<' {
        assert(e =~= seq!['\\', 'u', '0', '0', '3', 'c']);
        assert(json_meaning(e, JsonLex::InString) =~= seq![(true, 60nat)]);
    } else {
        assert(e =~= seq!['\\', 'u', '0', '0', '3', 'e']);
        assert(json_meaning(e, JsonLex::InString) =~= seq![(true, 62nat)]);
    }
}

/// Escaped page JSON means what the page JSON means: with `<` and `>` only inside strings,
/// as a serializer writes them, each `\u003c` / `\u003e` written in their place is read back
/// as that character, and everything else is read as before. So the script element holds
/// the same page object.
pub proof fn lemma_escaped_json_means_the_same(s: Seq<char>, st: JsonLex)
    requires
        tags_only_in_strings(s, st),
    ensures
        json_meaning(escape_tags(s), st) == json_meaning(s, st),
        lex_state(escape_tags(s), st) == lex_state(s, st),
    decreases s.len(),
{
    if s.len() > 0 {
        let c = s[0];
        let rest = s.drop_first();
        let next = lex_step(st, c).1;
        lemma_escape_tags_front(s);
        lemma_escaped_json_means_the_same(rest, next);
        lemma_meaning_concat(tag_escape(c), escape_tags(rest), st);
        if c == '<' || c == '>' {
            lemma_tag_escape_in_string(c);
            assert(st is InString);
            assert(next == JsonLex::InString);
            assert(lex_step(st, c).0 == seq![(true, c as nat)]);
        } else {
            let one = seq![c];
            assert(tag_escape(c) =~= one);
            assert(one[0] == c);
            assert(one.drop_first() =~= Seq::<char>::empty());
            assert(json_meaning(one.drop_first(), next) =~= Seq::<(bool, nat)>::empty());
            assert(lex_state(one.drop_first(), next) == next);
            assert(json_meaning(one, st) =~= lex_step(st, c).0);
            assert(lex_state(one, st) == next);
        }
    } else {
        assert(escape_tags(s) =~= Seq::<char>::empty());
    }
}

/// Page JSON made safe for `<script type="application/json">`: `<` and `>` become
/// `\u003c` / `\u003e`, so a prop holding `</script>` cannot end the script element. Both
/// characters only occur inside JSON strings, where the escaped form is equivalent.
pub fn escape_script_json(json: &str) -> (r: String)
    ensures
        r@ == escape_tags(json@),
{
    let n = json.unicode_len();
    let mut r = String::new();
    let mut i: usize = 0;
    while i < n
        invariant
            n == json@.len(),
            i <= n,
            r@ == escape_tags(json@.subrange(0, i as int)),
        decreases n - i,
    {
        let c = json.get_char(i);
        let ghost before = r@;
        if c == '<' || c == '>' {
            push_char(&mut r, '\\');
            push_char(&mut r, 'u');
            push_char(&mut r, '0');
            push_char(&mut r, '0');
            push_char(&mut r, '3');
            push_char(&mut r, if c == '<' { 'c' } else { 'e' });
        } else {
            push_char(&mut r, c);
        }
        assert(json@.subrange(0, i + 1).drop_last() == json@.subrange(0, i as int));
        assert(r@ =~= before + tag_escape(c));
        i = i + 1;
    }
    assert(json@.subrange(0, n as int) == json@);
    r
}

} // verus!
