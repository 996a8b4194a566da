//! The history log: a bounded, deduplicated, most-recently-used-first record
//! of the (repository, file path) pairs that were copied in earlier runs.

use vstd::prelude::*;

verus! {

/// Greatest number of entries the history may hold.
pub const HISTORY_CAP: usize = 50;

/// The mathematical value of one entry: (repository identifier, file path).
pub type EntryView = (Seq<char>, Seq<char>);

/// One remembered copy: a repository identifier of the form `<owner>/<name>`
/// and a file path relative to that repository's root.
#[derive(Debug)]
pub struct HistoryEntry {
    pub repo: String,
    pub file_path: String,
}

impl View for HistoryEntry {
    type V = EntryView;

    open spec fn view(&self) -> EntryView {
        (self.repo@, self.file_path@)
    }
}

impl Clone for HistoryEntry {
    fn clone(&self) -> (r: Self)
        ensures
            r@ == self@,
    {
        HistoryEntry { repo: self.repo.clone(), file_path: self.file_path.clone() }
    }
}

/// The ordered log of previously copied files, most recently used first.
#[derive(Debug)]
pub struct History {
    pub entries: Vec<HistoryEntry>,
}

/// The mathematical value of a sequence of entries.
pub open spec fn entries_view(v: Seq<HistoryEntry>) -> Seq<EntryView> {
    v.map_values(|e: HistoryEntry| e@)
}

impl View for History {
    type V = Seq<EntryView>;

    open spec fn view(&self) -> Seq<EntryView> {
        entries_view(self.entries@)
    }
}

/// A well-formed history has no two equal entries and never exceeds the cap.
pub open spec fn wf_history(s: Seq<EntryView>) -> bool {
    s.no_duplicates() && s.len() <= HISTORY_CAP
}

/// The predicate that keeps every entry except `e`.
pub open spec fn differs_from(e: EntryView) -> spec_fn(EntryView) -> bool {
    |x: EntryView| x != e
}

/// The effect of adding an entry: any entry equal to the new one is removed,
/// the new one goes in front, and the result is cut to at most `HISTORY_CAP`
/// entries.
pub open spec fn spec_add(s: Seq<EntryView>, e: EntryView) -> Seq<EntryView> {
    let grown = seq![e] + s.filter(differs_from(e));
    if grown.len() > HISTORY_CAP {
        grown.take(HISTORY_CAP as int)
    } else {
        grown
    }
}

/// The display line of one entry: `repo: file_path`.
pub open spec fn line_of(e: EntryView) -> Seq<char> {
    e.0 + ": "@ + e.1
}

impl History {
    /// A history with no entries.
    pub fn empty() -> (r: History)
        ensures
            r@ == Seq::<EntryView>::empty(),
    {
        let r = History { entries: Vec::new() };
        proof {
            assert(r@ =~= Seq::<EntryView>::empty());
        }
        r
    }

    /// Removes any entry equal to (repo, file_path), inserts the pair at the
    /// front, and truncates the log to at most `HISTORY_CAP` entries.
    pub fn add_entry(&mut self, repo: &str, file_path: &str)
        ensures
            final (self)@ == spec_add(old(self)@, (repo@, file_path@)),
    {
        let ghost e: EntryView = (repo@, file_path@);
        let ghost p = differs_from(e);
        let key = HistoryEntry {
            repo: String::from_str(repo),
            file_path: String::from_str(file_path),
        };
        let mut kept: Vec<HistoryEntry> = Vec::new();
        let n = self.entries.len();
        let mut i: usize = 0;
        while i < n
            invariant
                n == self.entries.len(),
                self.entries@ == old(self).entries@,
                i <= n,
                key@ == e,
                p == differs_from(e),
                kept@.map_values(|q: HistoryEntry| q@) == old(self)@.take(i as int).filter(p),
            decreases n - i,
        {
            let ent = &self.entries[i];
            let keep = !(ent.repo == key.repo && ent.file_path == key.file_path);
            proof {
                reveal(Seq::filter);
                assert(old(self)@.take(i + 1).drop_last() =~= old(self)@.take(i as int));
                assert(old(self)@.take(i + 1).last() == old(self)@[i as int]);
                assert(old(self)@[i as int] == ent@);
                assert(keep == p(ent@));
            }
            if keep {
                kept.push(ent.clone());
                proof {
                    assert(kept@.map_values(|q: HistoryEntry| q@) =~= old(self)@.take(
                        i + 1,
                    ).filter(p));
                }
            } else {
                proof {
                    assert(kept@.map_values(|q: HistoryEntry| q@) =~= old(self)@.take(
                        i + 1,
                    ).filter(p));
                }
            }
            i += 1;
        }
        proof {
            assert(old(self)@.take(n as int) =~= old(self)@);
        }
        let mut out: Vec<HistoryEntry> = Vec::new();
        out.push(key);
        let ghost keptv = kept@;
        out.append(&mut kept);
        proof {
            let f = |q: HistoryEntry| q@;
            let grown = seq![e] + old(self)@.filter(p);
            assert(out@ =~= seq![out@[0]] + keptv);
            assert(out@.map_values(f) =~= grown);
        }
        if out.len() > HISTORY_CAP {
            let ghost outv = out@;
            out.truncate(HISTORY_CAP);
            proof {
                let f = |q: HistoryEntry| q@;
                assert(out@.map_values(f) =~= outv.map_values(f).take(HISTORY_CAP as int));
            }
        }
        self.entries = out;
        proof {
            assert(self@ =~= spec_add(old(self)@, e));
        }
    }

    /// One display line per entry, `repo: file_path`, in stored order
    /// (most recent first).
    pub fn get_history_items(&self) -> (r: Vec<String>)
        ensures
            r@.len() == self@.len(),
            forall|i: int| 0 <= i < r@.len() ==> r@[i]@ == line_of(self@[i]),
    {
        let mut r: Vec<String> = Vec::new();
        let n = self.entries.len();
        let mut i: usize = 0;
        while i < n
            invariant
                n == self.entries@.len(),
                i <= n,
                r@.len() == i,
                forall|j: int| 0 <= j < i ==> r@[j]@ == line_of(self@[j]),
            decreases n - i,
        {
            r.push(render_line(&self.entries[i]));
            i += 1;
        }
        r
    }
}

/// Filtering a sequence whose elements all satisfy the predicate keeps it
/// unchanged.
proof fn lemma_filter_all_kept(u: Seq<EntryView>, p: spec_fn(EntryView) -> bool)
    requires
        forall|i: int| 0 <= i < u.len() ==> p(u[i]),
    ensures
        u.filter(p) == u,
    decreases u.len(),
{
    reveal(Seq::filter);
    if u.len() == 0 {
        assert(u.filter(p) =~= u);
    } else {
        lemma_filter_all_kept(u.drop_last(), p);
        assert(u.filter(p) =~= u);
    }
}

/// Every element of a filtered sequence occurs in the original.
proof fn lemma_filter_subset(u: Seq<EntryView>, p: spec_fn(EntryView) -> bool, x: EntryView)
    requires
        u.filter(p).contains(x),
    ensures
        u.contains(x),
    decreases u.len(),
{
    reveal(Seq::filter);
    if u.len() > 0 {
        if x == u.last() {
            assert(u[u.len() - 1] == x);
        } else {
            assert(u.drop_last().filter(p).contains(x));
            lemma_filter_subset(u.drop_last(), p, x);
            let i = choose|i: int| 0 <= i < u.drop_last().len() && u.drop_last()[i] == x;
            assert(u[i] == x);
        }
    }
}

/// Filtering a sequence without duplicates leaves one without duplicates.
proof fn lemma_filter_no_dup(u: Seq<EntryView>, p: spec_fn(EntryView) -> bool)
    requires
        u.no_duplicates(),
    ensures
        u.filter(p).no_duplicates(),
    decreases u.len(),
{
    reveal(Seq::filter);
    if u.len() > 0 {
        let dl = u.drop_last();
        lemma_filter_no_dup(dl, p);
        if p(u.last()) {
            if dl.filter(p).contains(u.last()) {
                lemma_filter_subset(dl, p, u.last());
                let i = choose|i: int| 0 <= i < dl.len() && dl[i] == u.last();
                assert(u[i] == u[u.len() - 1]);
            }
        }
    }
}

/// Law: one add keeps the history well formed, and its length never exceeds
/// the cap whatever the history held before.
pub proof fn lemma_add_entry_preserves_wf(s: Seq<EntryView>, e: EntryView)
    ensures
        spec_add(s, e).len() <= HISTORY_CAP,
        s.no_duplicates() ==> wf_history(spec_add(s, e)),
{
    let p = differs_from(e);
    let kept = s.filter(p);
    if s.no_duplicates() {
        lemma_filter_no_dup(s, p);
        let grown = seq![e] + kept;
        let t = spec_add(s, e);
        assert forall|i: int, j: int|
            0 <= i < t.len() && 0 <= j < t.len() && i != j implies t[i] != t[j] by {
            if i > 0 {
                s.lemma_filter_pred(p, i - 1);
            }
            if j > 0 {
                s.lemma_filter_pred(p, j - 1);
            }
        }
    }
}

/// Law: adding the same entry twice in a row is the same as adding it once.
/// In particular the front entry is the added one and the second add leaves
/// the length unchanged.
pub proof fn lemma_add_entry_idempotent(s: Seq<EntryView>, e: EntryView)
    ensures
        spec_add(spec_add(s, e), e) == spec_add(s, e),
        spec_add(s, e).len() > 0,
        spec_add(s, e)[0] == e,
{
    let p = differs_from(e);
    let kept = s.filter(p);
    let grown = seq![e] + kept;
    let t = spec_add(s, e);
    let kept2 = if grown.len() > HISTORY_CAP {
        kept.take(HISTORY_CAP - 1)
    } else {
        kept
    };
    assert(t =~= seq![e] + kept2);
    assert forall|i: int| 0 <= i < kept2.len() implies p(kept2[i]) by {
        s.lemma_filter_pred(p, i);
    }
    lemma_filter_all_kept(kept2, p);
    Seq::filter_distributes_over_add(seq![e], kept2, p);
    reveal_with_fuel(Seq::filter, 3);
    assert(seq![e].drop_last() =~= Seq::<EntryView>::empty());
    assert(seq![e].filter(p) =~= Seq::<EntryView>::empty());
    assert(t.filter(p) == kept2);
    assert(spec_add(t, e) =~= t);
}

/// The result of adding the entries of `es` in order, first element first
/// (so the last element of `es` is the most recent add).
pub open spec fn spec_add_all(s: Seq<EntryView>, es: Seq<EntryView>) -> Seq<EntryView>
    decreases es.len(),
{
    if es.len() == 0 {
        s
    } else {
        spec_add_all(spec_add(s, es[0]), es.drop_first())
    }
}

/// `k` cut to the cap.
pub open spec fn cap_min(k: int) -> int {
    if k < HISTORY_CAP {
        k
    } else {
        HISTORY_CAP as int
    }
}

proof fn lemma_add_all_snoc(s: Seq<EntryView>, es: Seq<EntryView>, x: EntryView)
    ensures
        spec_add_all(s, es.push(x)) == spec_add(spec_add_all(s, es), x),
    decreases es.len(),
{
    reveal_with_fuel(spec_add_all, 2);
    if es.len() == 0 {
        assert(es.push(x)[0] == x);
        assert(es.push(x).drop_first() =~= Seq::<EntryView>::empty());
        assert(spec_add_all(s, es.push(x)) == spec_add_all(
            spec_add(s, x),
            Seq::<EntryView>::empty(),
        ));
        assert(spec_add_all(spec_add(s, x), Seq::<EntryView>::empty()) == spec_add(s, x));
        assert(spec_add_all(s, es) == s);
    } else {
        assert(es.push(x)[0] == es[0]);
        assert(es.push(x).drop_first() =~= es.drop_first().push(x));
        assert(spec_add_all(s, es.push(x)) == spec_add_all(
            spec_add(s, es[0]),
            es.drop_first().push(x),
        ));
        assert(spec_add_all(s, es) == spec_add_all(spec_add(s, es[0]), es.drop_first()));
        lemma_add_all_snoc(spec_add(s, es[0]), es.drop_first(), x);
    }
}

/// After `k` adds of distinct entries the first `cap_min(k)` entries of the
/// history are exactly those adds, newest first.
proof fn lemma_add_all_prefix(s: Seq<EntryView>, es: Seq<EntryView>, k: int)
    requires
        es.no_duplicates(),
        0 <= k <= es.len(),
    ensures
        k >= 1 ==> spec_add_all(s, es.take(k)).len() <= HISTORY_CAP,
        spec_add_all(s, es.take(k)).len() >= cap_min(k),
        spec_add_all(s, es.take(k)).take(cap_min(k)) == es.take(k).reverse().take(cap_min(k)),
    decreases k,
{
    if k == 0 {
        assert(es.take(0) =~= Seq::<EntryView>::empty());
        assert(spec_add_all(s, es.take(0)).take(0) =~= es.take(0).reverse().take(0));
    } else {
        lemma_add_all_prefix(s, es, k - 1);
        let x = es[k - 1];
        let prev = spec_add_all(s, es.take(k - 1));
        assert(es.take(k) =~= es.take(k - 1).push(x));
        lemma_add_all_snoc(s, es.take(k - 1), x);
        let r = spec_add(prev, x);
        assert(r == spec_add_all(s, es.take(k)));
        let m1 = cap_min(k - 1);
        let m = cap_min(k);
        let p = differs_from(x);
        let prefix = prev.take(m1);
        let tail = prev.skip(m1);
        assert forall|i: int| 0 <= i < prefix.len() implies p(prefix[i]) by {
            assert(prefix[i] == es.take(k - 1).reverse().take(m1)[i]);
            assert(es.take(k - 1).reverse()[i] == es.take(k - 1)[k - 2 - i]);
            assert(es.take(k - 1)[k - 2 - i] == es[k - 2 - i]);
        }
        assert(prev =~= prefix + tail);
        Seq::filter_distributes_over_add(prefix, tail, p);
        lemma_filter_all_kept(prefix, p);
        let grown = seq![x] + prev.filter(p);
        assert(grown.take(1 + m1) =~= seq![x] + prefix);
        assert(r.len() >= m);
        assert(r.take(m) =~= es.take(k).reverse().take(m)) by {
            assert forall|i: int| 0 <= i < m implies r.take(m)[i] == es.take(k).reverse().take(
                m,
            )[i] by {
                assert(r[i] == grown[i]);
                assert(es.take(k).reverse()[i] == es.take(k)[k - 1 - i]);
                if i == 0 {
                    assert(grown[0] == x);
                } else {
                    assert(grown[i] == prev.filter(p)[i - 1]);
                    assert(prev.filter(p)[i - 1] == prefix[i - 1]);
                    assert(prefix[i - 1] == es.take(k - 1).reverse().take(m1)[i - 1]);
                    assert(es.take(k - 1).reverse()[i - 1] == es[k - 1 - i]);
                }
            }
        }
    }
}

/// Law: after at least `HISTORY_CAP` distinct entries are added in order,
/// the history holds exactly the `HISTORY_CAP` most recently added entries,
/// most recent first, whatever it held before.
pub proof fn lemma_add_entry_capacity(s: Seq<EntryView>, es: Seq<EntryView>)
    requires
        es.no_duplicates(),
        es.len() >= HISTORY_CAP,
    ensures
        spec_add_all(s, es).len() == HISTORY_CAP,
        spec_add_all(s, es) == es.reverse().take(HISTORY_CAP as int),
{
    lemma_add_all_prefix(s, es, es.len() as int);
    assert(es.take(es.len() as int) =~= es);
    let r = spec_add_all(s, es);
    assert(r =~= r.take(HISTORY_CAP as int));
}

/// The display line of one entry, `repo: file_path`.
pub fn render_line(e: &HistoryEntry) -> (r: String)
    ensures
        r@ == line_of(e@),
{
    let mut r = String::new();
    r.append(e.repo.as_str());
    r.append(": ");
    r.append(e.file_path.as_str());
    r
}

} // verus!
