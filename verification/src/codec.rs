//! The persisted form of the history: a JSON document
//! `{"entries":[{"repo":"...","file_path":"..."},...]}`.
//!
//! `render_history` gives the exact text that is written; `parse_history_text`
//! gives the texts that are accepted: the written form, with whitespace
//! allowed between tokens, the members of an object in any order, and
//! members under unknown keys read past and dropped. Parsing what was
//! rendered returns the rendered entries unchanged — see
//! `lemma_save_load_round_trip`.

use vstd::prelude::*;

use crate::errors::ToolError;
use crate::history::{entries_view, EntryView, History, HistoryEntry};
use crate::json::{
    esc_char, esc_str, match_at, push_char, quoted, skip_value_x, str_body, str_body_x,
    two_str_members, two_str_members_x, unesc, ws_end, ws_end_x,
};

verus! {

/// The key token `"repo"`, quotes included.
pub open spec fn tok_repo() -> Seq<char> {
    seq!['"', 'r', 'e', 'p', 'o', '"']
}

/// The key token `"file_path"`, quotes included.
pub open spec fn tok_file_path() -> Seq<char> {
    seq!['"', 'f', 'i', 'l', 'e', '_', 'p', 'a', 't', 'h', '"']
}

/// The key token `"entries"`, quotes included.
pub open spec fn tok_entries() -> Seq<char> {
    seq!['"', 'e', 'n', 't', 'r', 'i', 'e', 's', '"']
}

/// The key `repo`, unquoted.
pub open spec fn key_repo() -> Seq<char> {
    seq!['r', 'e', 'p', 'o']
}

/// The key `file_path`, unquoted.
pub open spec fn key_file_path() -> Seq<char> {
    seq!['f', 'i', 'l', 'e', '_', 'p', 'a', 't', 'h']
}

/// The key `entries`, unquoted.
pub open spec fn key_entries() -> Seq<char> {
    seq!['e', 'n', 't', 'r', 'i', 'e', 's']
}

/// The view of an optional list of entries.
pub open spec fn opt_entries_view(o: Option<Vec<HistoryEntry>>) -> Option<Seq<EntryView>> {
    match o {
        Some(v) => Some(entries_view(v@)),
        None => None,
    }
}

/// How one entry is written: `{"repo":"...","file_path":"..."}`.
pub open spec fn render_entry(e: EntryView) -> Seq<char> {
    seq!['{'] + tok_repo() + seq![':'] + quoted(e.0) + seq![','] + tok_file_path() + seq![':']
        + quoted(e.1) + seq!['}']
}

/// How the entry list is written: the entries in order, separated by commas.
pub open spec fn render_entries(v: Seq<EntryView>) -> Seq<char>
    decreases v.len(),
{
    if v.len() == 0 {
        Seq::empty()
    } else if v.len() == 1 {
        render_entry(v[0])
    } else {
        render_entry(v[0]) + seq![','] + render_entries(v.drop_first())
    }
}

/// How the whole history is written: `{"entries":[...]}` on one line.
pub open spec fn render_history(v: Seq<EntryView>) -> Seq<char> {
    seq!['{'] + tok_entries() + seq![':', '['] + render_entries(v) + seq![']', '}']
}

/// Reads one entry object beginning at `i` (at its `{`): an object whose
/// `repo` and `file_path` members are strings, each present exactly once, in
/// either order, with any other members read past and dropped.
pub open spec fn parse_entry(s: Seq<char>, i: int) -> Option<(EntryView, int)> {
    if !(0 <= i && i < s.len() && s[i] == '{') {
        None
    } else {
        two_str_members(s, i + 1, key_repo(), key_file_path(), None, None)
    }
}

/// Reads the entry list, entered just after `[` (with `first` true) or just
/// after a separating comma (with `first` false).
pub open spec fn parse_entries(s: Seq<char>, i: int, acc: Seq<EntryView>, first: bool) -> Option<
    (Seq<EntryView>, int),
>
    decreases s.len() - i,
{
    if !(0 <= i && i <= s.len()) {
        None
    } else {
        let j = ws_end(s, i);
        if !(i <= j && j < s.len()) {
            None
        } else if s[j] == ']' {
            if first {
                Some((acc, j + 1))
            } else {
                None
            }
        } else {
            match parse_entry(s, j) {
                Some((en, k)) => {
                    if !(j < k && k <= s.len()) {
                        None
                    } else {
                        let m = ws_end(s, k);
                        if !(k <= m && m < s.len()) {
                            None
                        } else if s[m] == ',' {
                            parse_entries(s, m + 1, acc.push(en), false)
                        } else if s[m] == ']' {
                            Some((acc.push(en), m + 1))
                        } else {
                            None
                        }
                    }
                },
                None => None,
            }
        }
    }
}

/// Reads the members of the history document, entered just after `{` or a
/// comma. The `entries` member must be an array of entry objects and must
/// come exactly once; all other members are read past and dropped.
pub open spec fn history_members(s: Seq<char>, i: int, found: Option<Seq<EntryView>>) -> Option<
    (Seq<EntryView>, int),
>
    decreases s.len() - i,
{
    if !(0 <= i && i <= s.len()) {
        None
    } else {
        let j = ws_end(s, i);
        if !(i <= j && j < s.len()) {
            None
        } else if s[j] != '"' {
            None
        } else {
            match str_body(s, j + 1, Seq::empty()) {
                Some((key, k)) => {
                    if !(j < k && k <= s.len()) {
                        None
                    } else {
                        let m = ws_end(s, k);
                        if !(k <= m && m < s.len() && s[m] == ':') {
                            None
                        } else {
                            let v = ws_end(s, m + 1);
                            if !(m < v && v < s.len()) {
                                None
                            } else if key == key_entries() {
                                if found is Some || s[v] != '[' {
                                    None
                                } else {
                                    match parse_entries(s, v + 1, Seq::empty(), true) {
                                        Some((entries, w)) => {
                                            if !(v < w && w <= s.len()) {
                                                None
                                            } else {
                                                let q = ws_end(s, w);
                                                if !(w <= q && q < s.len()) {
                                                    None
                                                } else if s[q] == ',' {
                                                    history_members(s, q + 1, Some(entries))
                                                } else if s[q] == '}' {
                                                    Some((entries, q + 1))
                                                } else {
                                                    None
                                                }
                                            }
                                        },
                                        None => None,
                                    }
                                }
                            } else {
                                match crate::json::skip_value(s, v) {
                                    Some(w) => {
                                        if !(v < w && w <= s.len()) {
                                            None
                                        } else {
                                            let q = ws_end(s, w);
                                            if !(w <= q && q < s.len()) {
                                                None
                                            } else if s[q] == ',' {
                                                history_members(s, q + 1, found)
                                            } else if s[q] == '}' {
                                                match found {
                                                    Some(v2) => Some((v2, q + 1)),
                                                    None => None,
                                                }
                                            } else {
                                                None
                                            }
                                        }
                                    },
                                    None => None,
                                }
                            }
                        }
                    }
                },
                None => None,
            }
        }
    }
}

/// Reads a whole history document: an object holding an `entries` array of
/// entry objects, with whitespace allowed between tokens and nothing but
/// whitespace after it.
pub open spec fn parse_history_text(s: Seq<char>) -> Option<Seq<EntryView>> {
    let i = ws_end(s, 0);
    if !(0 <= i && i < s.len() && s[i] == '{') {
        None
    } else {
        match history_members(s, i + 1, None) {
            Some((v, d)) => {
                if ws_end(s, d) == s.len() {
                    Some(v)
                } else {
                    None
                }
            },
            None => None,
        }
    }
}

/// Appends the escaped form of `v` to `out`.
fn append_escaped(out: &mut String, v: &str)
    ensures
        final (out)@ == old(out)@ + esc_str(v@),
{
    let n = v.unicode_len();
    let mut i: usize = 0;
    while i < n
        invariant
            n == v@.len(),
            i <= n,
            out@ == old(out)@ + esc_str(v@.take(i as int)),
        decreases n - i,
    {
        let c = v.get_char(i);
        if c == '"' {
            push_char(out, '\\');
            push_char(out, '"');
        } else if c == '\\' {
            push_char(out, '\\');
            push_char(out, '\\');
        } else if c == '\n' {
            push_char(out, '\\');
            push_char(out, 'n');
        } else if c == '\r' {
            push_char(out, '\\');
            push_char(out, 'r');
        } else if c == '\t' {
            push_char(out, '\\');
            push_char(out, 't');
        } else if c == '\u{8}' {
            push_char(out, '\\');
            push_char(out, 'b');
        } else if c == '\u{c}' {
            push_char(out, '\\');
            push_char(out, 'f');
        } else {
            push_char(out, c);
        }
        proof {
            lemma_esc_str_snoc(v@.take(i as int), v@[i as int]);
            assert(v@.take(i + 1) =~= v@.take(i as int).push(v@[i as int]));
            assert(out@ =~= old(out)@ + esc_str(v@.take(i + 1)));
        }
        i += 1;
    }
    proof {
        assert(v@.take(n as int) =~= v@);
    }
}

/// Escaping one more character appends its escape.
proof fn lemma_esc_str_snoc(u: Seq<char>, c: char)
    ensures
        esc_str(u.push(c)) == esc_str(u) + esc_char(c),
    decreases u.len(),
{
    reveal_with_fuel(esc_str, 3);
    if u.len() == 0 {
        assert(u.push(c)[0] == c);
        assert(u.push(c).drop_first() =~= Seq::<char>::empty());
        assert(esc_str(u.push(c)) =~= esc_str(u) + esc_char(c));
    } else {
        assert(u.push(c)[0] == u[0]);
        assert(u.push(c).drop_first() =~= u.drop_first().push(c));
        lemma_esc_str_snoc(u.drop_first(), c);
        assert(esc_str(u.push(c)) =~= esc_str(u) + esc_char(c));
    }
}

/// One more rendered entry stands after a comma, unless it is the first.
proof fn lemma_render_entries_snoc(v: Seq<EntryView>, e: EntryView)
    ensures
        v.len() == 0 ==> render_entries(v.push(e)) == render_entry(e),
        v.len() > 0 ==> render_entries(v.push(e)) == render_entries(v) + seq![','] + render_entry(
            e,
        ),
    decreases v.len(),
{
    if v.len() == 0 {
        assert(v.push(e)[0] == e);
    } else {
        assert(v.push(e)[0] == v[0]);
        assert(v.push(e).drop_first() =~= v.drop_first().push(e));
        lemma_render_entries_snoc(v.drop_first(), e);
        if v.len() == 1 {
            assert(render_entries(v.push(e)) =~= render_entries(v) + seq![','] + render_entry(e));
        } else {
            assert(render_entries(v.push(e)) =~= render_entries(v) + seq![','] + render_entry(e));
        }
    }
}

/// Appends the rendered form of one entry to `out`.
fn append_entry(out: &mut String, e: &HistoryEntry)
    ensures
        final (out)@ == old(out)@ + render_entry(e@),
{
    out.append("{\"repo\":\"");
    proof {
        reveal_strlit("{\"repo\":\"");
        assert("{\"repo\":\""@ =~= seq!['{'] + tok_repo() + seq![':'] + seq!['"']);
    }
    append_escaped(out, e.repo.as_str());
    out.append("\",\"file_path\":\"");
    proof {
        reveal_strlit("\",\"file_path\":\"");
        assert("\",\"file_path\":\""@ =~= seq!['"', ','] + tok_file_path() + seq![':', '"']);
    }
    append_escaped(out, e.file_path.as_str());
    out.append("\"}");
    proof {
        reveal_strlit("\"}");
        assert("\"}"@ =~= seq!['"', '}']);
        assert(out@ =~= old(out)@ + render_entry(e@));
    }
}

impl History {
    /// Writes the history as its persisted text: `{"entries":[...]}` on one
    /// line, entries in stored order.
    pub fn to_text(&self) -> (r: String)
        ensures
            r@ == render_history(self@),
    {
        let mut out = String::new();
        out.append("{\"entries\":[");
        proof {
            reveal_strlit("{\"entries\":[");
            assert("{\"entries\":["@ =~= seq!['{'] + tok_entries() + seq![':', '[']);
        }
        let n = self.entries.len();
        let mut i: usize = 0;
        while i < n
            invariant
                n == self.entries@.len(),
                i <= n,
                out@ == seq!['{'] + tok_entries() + seq![':', '['] + render_entries(
                    self@.take(i as int),
                ),
            decreases n - i,
        {
            if i > 0 {
                push_char(&mut out, ',');
            }
            append_entry(&mut out, &self.entries[i]);
            proof {
                lemma_render_entries_snoc(self@.take(i as int), self@[i as int]);
                assert(self@.take(i + 1) =~= self@.take(i as int).push(self@[i as int]));
                assert(out@ =~= seq!['{'] + tok_entries() + seq![':', '['] + render_entries(
                    self@.take(i + 1),
                ));
            }
            i += 1;
        }
        out.append("]}");
        proof {
            reveal_strlit("]}");
            assert("]}"@ =~= seq![']', '}']);
            assert(self@.take(n as int) =~= self@);
            assert(out@ =~= render_history(self@));
        }
        out
    }
}

/// One place of a matched text, read off the subrange equality.
proof fn lemma_match_at_index(s: Seq<char>, i: int, t: Seq<char>, k: int)
    requires
        match_at(s, i, t),
        0 <= k < t.len(),
    ensures
        s[i + k] == t[k],
{
    assert(s.subrange(i, i + t.len())[k] == t[k]);
}

/// A matched text matches on every slice of itself.
proof fn lemma_match_at_sub(s: Seq<char>, i: int, t: Seq<char>, a: int, b: int)
    requires
        match_at(s, i, t),
        0 <= a <= b <= t.len(),
    ensures
        match_at(s, i + a, t.subrange(a, b)),
{
    assert forall|k: int| 0 <= k < b - a implies s.subrange(i + a, i + b)[k] == t.subrange(
        a,
        b,
    )[k] by {
        lemma_match_at_index(s, i, t, a + k);
    }
    assert(s.subrange(i + a, i + b) =~= t.subrange(a, b));
}

/// Reading a rendered string body returns the text that was escaped.
proof fn lemma_str_body_render(v: Seq<char>, acc: Seq<char>, s: Seq<char>, i: int)
    requires
        match_at(s, i, esc_str(v) + seq!['"']),
    ensures
        str_body(s, i, acc) == Some((acc + v, i + esc_str(v).len() + 1)),
    decreases v.len(),
{
    reveal_with_fuel(esc_str, 2);
    if v.len() == 0 {
        lemma_match_at_index(s, i, esc_str(v) + seq!['"'], 0);
        assert(s[i] == '"');
        assert(acc + v =~= acc);
    } else {
        let c = v[0];
        let rest = v.drop_first();
        let ec = esc_char(c);
        assert(esc_str(v) == ec + esc_str(rest));
        assert((ec.len() == 2 && ec[0] == '\\' && unesc(ec[1]) == Some(c)) || (ec.len() == 1
            && ec[0] == c && c != '"' && c != '\\'));
        let el = ec.len() as int;
        lemma_match_at_index(s, i, esc_str(v) + seq!['"'], 0);
        assert(s[i] == ec[0]);
        if el == 2 {
            lemma_match_at_index(s, i, esc_str(v) + seq!['"'], 1);
            assert(s[i + 1] == ec[1]);
        }
        lemma_match_at_sub(s, i, esc_str(v) + seq!['"'], el, esc_str(v).len() + 1int);
        assert((esc_str(v) + seq!['"']).subrange(el, esc_str(v).len() + 1int) =~= esc_str(rest)
            + seq!['"']);
        lemma_str_body_render(rest, acc.push(c), s, i + el);
        assert(acc.push(c) + rest =~= acc + v);
    }
}

/// Escaping text whose characters all stand for themselves changes nothing.
proof fn lemma_esc_str_plain(v: Seq<char>)
    requires
        forall|k: int| 0 <= k < v.len() ==> esc_char(v[k]) == seq![v[k]],
    ensures
        esc_str(v) == v,
    decreases v.len(),
{
    reveal_with_fuel(esc_str, 2);
    if v.len() == 0 {
        assert(esc_str(v) =~= v);
    } else {
        lemma_esc_str_plain(v.drop_first());
        assert(esc_char(v[0]) == seq![v[0]]);
        assert(esc_str(v) =~= v);
    }
}

/// The characters of the three key names all stand for themselves.
proof fn lemma_keys_plain()
    ensures
        esc_str(key_repo()) == key_repo(),
        esc_str(key_file_path()) == key_file_path(),
        esc_str(key_entries()) == key_entries(),
{
    assert forall|k: int| 0 <= k < key_repo().len() implies esc_char(key_repo()[k]) == seq![
        key_repo()[k],
    ] by {}
    assert forall|k: int|
        0 <= k < key_file_path().len() implies esc_char(key_file_path()[k]) == seq![
        key_file_path()[k],
    ] by {}
    assert forall|k: int| 0 <= k < key_entries().len() implies esc_char(key_entries()[k]) == seq![
        key_entries()[k],
    ] by {}
    lemma_esc_str_plain(key_repo());
    lemma_esc_str_plain(key_file_path());
    lemma_esc_str_plain(key_entries());
}

/// Reading a rendered entry returns the entry that was rendered.
#[verifier::rlimit(100)]
proof fn lemma_parse_entry_render(e: EntryView, s: Seq<char>, i: int)
    requires
        match_at(s, i, render_entry(e)),
    ensures
        parse_entry(s, i) == Some((e, i + render_entry(e).len())),
{
    let re = render_entry(e);
    let l1 = esc_str(e.0).len() as int;
    let l2 = esc_str(e.1).len() as int;
    assert(re.len() == 26 + l1 + l2);
    lemma_keys_plain();
    assert(re.subrange(2, 7) =~= esc_str(key_repo()) + seq!['"']);
    assert(re.subrange(9, 10 + l1) =~= esc_str(e.0) + seq!['"']);
    assert(re.subrange(12 + l1, 22 + l1) =~= esc_str(key_file_path()) + seq!['"']);
    assert(re.subrange(24 + l1, 25 + l1 + l2) =~= esc_str(e.1) + seq!['"']);
    lemma_match_at_index(s, i, re, 0);
    lemma_match_at_index(s, i, re, 1);
    lemma_match_at_index(s, i, re, 7);
    lemma_match_at_index(s, i, re, 8);
    lemma_match_at_index(s, i, re, 10 + l1);
    lemma_match_at_index(s, i, re, 11 + l1);
    lemma_match_at_index(s, i, re, 22 + l1);
    lemma_match_at_index(s, i, re, 23 + l1);
    lemma_match_at_index(s, i, re, 25 + l1 + l2);
    lemma_match_at_sub(s, i, re, 2, 7);
    lemma_match_at_sub(s, i, re, 9, 10 + l1);
    lemma_match_at_sub(s, i, re, 12 + l1, 22 + l1);
    lemma_match_at_sub(s, i, re, 24 + l1, 25 + l1 + l2);
    lemma_str_body_render(key_repo(), Seq::empty(), s, i + 2);
    assert(Seq::<char>::empty() + key_repo() =~= key_repo());
    lemma_str_body_render(e.0, Seq::empty(), s, i + 9);
    assert(Seq::<char>::empty() + e.0 =~= e.0);
    lemma_str_body_render(key_file_path(), Seq::empty(), s, i + 12 + l1);
    assert(Seq::<char>::empty() + key_file_path() =~= key_file_path());
    lemma_str_body_render(e.1, Seq::empty(), s, i + 24 + l1);
    assert(Seq::<char>::empty() + e.1 =~= e.1);
    assert(key_repo() != key_file_path());
    let second = two_str_members(s, i + 11 + l1, key_repo(), key_file_path(), Some(e.0), None);
    assert(second == Some(((e.0, e.1), i + 26 + l1 + l2))) by {
        reveal(two_str_members);
    }
    assert(two_str_members(s, i + 1, key_repo(), key_file_path(), None, None) == Some(
        ((e.0, e.1), i + 26 + l1 + l2),
    )) by {
        reveal(two_str_members);
    }
    assert(parse_entry(s, i) == Some((e, i + 26 + l1 + l2)));
}

/// Reading a rendered entry list returns the entries that were rendered.
proof fn lemma_parse_entries_render(
    v: Seq<EntryView>,
    acc: Seq<EntryView>,
    s: Seq<char>,
    i: int,
    first: bool,
)
    requires
        v.len() == 0 ==> first,
        match_at(s, i, render_entries(v) + seq![']']),
    ensures
        parse_entries(s, i, acc, first) == Some((acc + v, i + render_entries(v).len() + 1)),
    decreases v.len(),
{
    let rv = render_entries(v);
    if v.len() == 0 {
        lemma_match_at_index(s, i, rv + seq![']'], 0);
        assert(s[i] == ']');
        assert(acc + v =~= acc);
    } else {
        let re = render_entry(v[0]);
        assert(re.len() >= 26);
        assert(re[0] == '{');
        if v.len() == 1 {
            assert(rv == re);
        } else {
            assert(rv == re + seq![','] + render_entries(v.drop_first()));
        }
        lemma_match_at_index(s, i, rv + seq![']'], 0);
        assert(s[i] == '{');
        lemma_match_at_sub(s, i, rv + seq![']'], 0, re.len() as int);
        assert((rv + seq![']']).subrange(0, re.len() as int) =~= re);
        lemma_parse_entry_render(v[0], s, i);
        let k = i + re.len() as int;
        lemma_match_at_index(s, i, rv + seq![']'], re.len() as int);
        if v.len() == 1 {
            assert(s[k] == ']');
            assert(acc.push(v[0]) =~= acc + v);
        } else {
            assert(s[k] == ',');
            lemma_match_at_sub(s, i, rv + seq![']'], re.len() + 1int, rv.len() + 1int);
            assert((rv + seq![']']).subrange(re.len() + 1int, rv.len() + 1int) =~= render_entries(
                v.drop_first(),
            ) + seq![']']);
            lemma_parse_entries_render(v.drop_first(), acc.push(v[0]), s, k + 1, false);
            assert(acc.push(v[0]) + v.drop_first() =~= acc + v);
        }
    }
}

/// Law: saving and then loading returns the history that was saved — parsing
/// the rendered text yields exactly the rendered entries, in order.
#[verifier::rlimit(100)]
pub proof fn lemma_save_load_round_trip(v: Seq<EntryView>)
    ensures
        parse_history_text(render_history(v)) == Some(v),
{
    reveal_with_fuel(history_members, 2);
    let s = render_history(v);
    let rv = render_entries(v);
    lemma_keys_plain();
    assert(s.len() == rv.len() + 14);
    assert(s[0] == '{');
    assert(s[1] == '"');
    assert(s.subrange(2, 10) =~= esc_str(key_entries()) + seq!['"']);
    assert(match_at(s, 2, esc_str(key_entries()) + seq!['"']));
    lemma_str_body_render(key_entries(), Seq::empty(), s, 2);
    assert(Seq::<char>::empty() + key_entries() =~= key_entries());
    assert(s[10] == ':');
    assert(s[11] == '[');
    assert(s.subrange(12, rv.len() + 13int) =~= rv + seq![']']);
    assert(match_at(s, 12, rv + seq![']']));
    lemma_parse_entries_render(v, Seq::empty(), s, 12, true);
    assert(Seq::<EntryView>::empty() + v =~= v);
    let d: int = rv.len() + 13int;
    assert(s[d] == '}');
    assert(ws_end(s, d + 1) == d + 1);
}

/// Reads one entry object as `parse_entry` does.
fn parse_entry_x(s: &str, i: usize) -> (r: Option<(HistoryEntry, usize)>)
    requires
        i <= s@.len(),
    ensures
        (match r {
            Some(p) => parse_entry(s@, i as int) == Some((p.0@, p.1 as int)) && i < p.1 <= s@.len(),
            None => parse_entry(s@, i as int) is None,
        }),
{
    let n = s.unicode_len();
    if !(i < n && s.get_char(i) == '{') {
        return None;
    }
    proof {
        reveal_strlit("repo");
        reveal_strlit("file_path");
        assert("repo"@ =~= key_repo());
        assert("file_path"@ =~= key_file_path());
    }
    match two_str_members_x(s, i + 1, "repo", "file_path", None, None) {
        Some(p) => Some((HistoryEntry { repo: p.0.0, file_path: p.0.1 }, p.1)),
        None => None,
    }
}

/// Reads the entry list as `parse_entries` does.
fn parse_entries_x(s: &str, i: usize, acc: Vec<HistoryEntry>, first: bool) -> (r: Option<
    (Vec<HistoryEntry>, usize),
>)
    requires
        i <= s@.len(),
    ensures
        (match r {
            Some(p) => parse_entries(s@, i as int, entries_view(acc@), first) == Some(
                (entries_view(p.0@), p.1 as int),
            ) && p.1 <= s@.len(),
            None => parse_entries(s@, i as int, entries_view(acc@), first) is None,
        }),
    decreases s@.len() - i,
{
    let n = s.unicode_len();
    let j = ws_end_x(s, i);
    if j >= n {
        return None;
    }
    if s.get_char(j) == ']' {
        if first {
            return Some((acc, j + 1));
        } else {
            return None;
        }
    }
    match parse_entry_x(s, j) {
        Some(pe) => {
            let k = pe.1;
            let m = ws_end_x(s, k);
            if m >= n {
                return None;
            }
            let cm = s.get_char(m);
            let ghost accv = acc@;
            if cm == ',' {
                let mut acc2 = acc;
                acc2.push(pe.0);
                proof {
                    assert(entries_view(acc2@) =~= entries_view(accv).push(pe.0@));
                }
                parse_entries_x(s, m + 1, acc2, false)
            } else if cm == ']' {
                let mut acc2 = acc;
                acc2.push(pe.0);
                proof {
                    assert(entries_view(acc2@) =~= entries_view(accv).push(pe.0@));
                }
                Some((acc2, m + 1))
            } else {
                None
            }
        },
        None => None,
    }
}

/// Reads the history document's members as `history_members` does.
fn history_members_x(s: &str, i: usize, found: Option<Vec<HistoryEntry>>) -> (r: Option<
    (Vec<HistoryEntry>, usize),
>)
    requires
        i <= s@.len(),
    ensures
        (match r {
            Some(p) => history_members(s@, i as int, opt_entries_view(found)) == Some(
                (entries_view(p.0@), p.1 as int),
            ) && p.1 <= s@.len(),
            None => history_members(s@, i as int, opt_entries_view(found)) is None,
        }),
    decreases s@.len() - i,
{
    let n = s.unicode_len();
    let j = ws_end_x(s, i);
    if j >= n {
        return None;
    }
    if s.get_char(j) != '"' {
        return None;
    }
    match str_body_x(s, j + 1, String::new()) {
        Some(key) => {
            let k = key.1;
            let m = ws_end_x(s, k);
            if !(m < n && s.get_char(m) == ':') {
                return None;
            }
            let v = ws_end_x(s, m + 1);
            if v >= n {
                return None;
            }
            let ek = String::from_str("entries");
            proof {
                reveal_strlit("entries");
                assert("entries"@ =~= key_entries());
            }
            if key.0 == ek {
                if found.is_some() || s.get_char(v) != '[' {
                    return None;
                }
                proof {
                    assert(entries_view(Seq::<HistoryEntry>::empty())
                        =~= Seq::<EntryView>::empty());
                }
                match parse_entries_x(s, v + 1, Vec::new(), true) {
                    Some(p) => {
                        let w = p.1;
                        if !(v < w && w <= n) {
                            return None;
                        }
                        let q = ws_end_x(s, w);
                        if q >= n {
                            return None;
                        }
                        let cq = s.get_char(q);
                        if cq == ',' {
                            history_members_x(s, q + 1, Some(p.0))
                        } else if cq == '}' {
                            Some((p.0, q + 1))
                        } else {
                            None
                        }
                    },
                    None => None,
                }
            } else {
                match skip_value_x(s, v) {
                    Some(w) => {
                        if !(v < w && w <= n) {
                            return None;
                        }
                        let q = ws_end_x(s, w);
                        if q >= n {
                            return None;
                        }
                        let cq = s.get_char(q);
                        if cq == ',' {
                            history_members_x(s, q + 1, found)
                        } else if cq == '}' {
                            match found {
                                Some(v2) => Some((v2, q + 1)),
                                None => None,
                            }
                        } else {
                            None
                        }
                    },
                    None => None,
                }
            }
        },
        None => None,
    }
}

impl History {
    /// Reads a history document. Text that does not follow the grammar is
    /// `CorruptHistory`; absence of the file is not handled here (see
    /// `from_storage`).
    pub fn parse(s: &str) -> (r: Result<History, ToolError>)
        ensures
            (match r {
                Ok(h) => parse_history_text(s@) == Some(h@),
                Err(e) => parse_history_text(s@) is None && e == ToolError::CorruptHistory,
            }),
    {
        let n = s.unicode_len();
        let i = ws_end_x(s, 0);
        if !(i < n && s.get_char(i) == '{') {
            return Err(ToolError::CorruptHistory);
        }
        match history_members_x(s, i + 1, None) {
            Some(p) => {
                if ws_end_x(s, p.1) == n {
                    Ok(History { entries: p.0 })
                } else {
                    Err(ToolError::CorruptHistory)
                }
            },
            None => Err(ToolError::CorruptHistory),
        }
    }

    /// What loading finds: absent storage is an empty history, not an error;
    /// present text must parse.
    pub fn from_storage(content: Option<&str>) -> (r: Result<History, ToolError>)
        ensures
            (match content {
                None => r is Ok && r->Ok_0@ == Seq::<EntryView>::empty(),
                Some(t) => (match r {
                    Ok(h) => parse_history_text(t@) == Some(h@),
                    Err(e) => parse_history_text(t@) is None && e == ToolError::CorruptHistory,
                }),
            }),
    {
        match content {
            None => Ok(History::empty()),
            Some(t) => History::parse(t),
        }
    }
}

} // verus!
