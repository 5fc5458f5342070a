//! The ranking and partition engine: two disjoint collections of entries,
//! `shown` (matching the query) and `hidden` (excluded), re-partitioned on
//! every query change; `shown` is kept sorted by corrected score descending
//! with ties broken by case-folded name, and a cursor tracks the
//! highlighted entry.

use vstd::prelude::*;
use vstd::string::StrSliceExecFns;

use fuzzy_matcher::FuzzyMatcher;

use crate::text::{lex_lt, str_lt, lower_of, lowercase};
use crate::xdg::{App, corrected_score_spec};

verus! {

/// What the fuzzy matcher returns for a choice string and a query pattern:
/// `None` when the pattern is no subsequence-style match for the choice,
/// else the raw match score.
pub uninterp spec fn fuzzy_of(choice: Seq<char>, pattern: Seq<char>) -> Option<i64>;

/// Relies on fuzzy_matcher's `SkimMatcherV2::fuzzy_match` under the default
/// configuration: its result is a function of the two strings alone, and an
/// empty pattern always matches, with score 0.
#[verifier::external_body]
fn fuzzy_match(choice: &str, pattern: &str) -> (r: Option<i64>)
    ensures
        r == fuzzy_of(choice@, pattern@),
        pattern@.len() == 0 ==> r == Option::Some(0i64),
{
    fuzzy_matcher::skim::SkimMatcherV2::default().fuzzy_match(choice, pattern)
}

/// Ranking order: `a` stands strictly before `b` when its corrected score
/// is higher, or equal with `a`'s lowercased name lexicographically
/// smaller, so that the tie-break ignores case.
pub open spec fn rank_lt(a: App, b: App) -> bool {
    ||| corrected_score_spec(a@.score, a@.history) > corrected_score_spec(b@.score, b@.history)
    ||| (corrected_score_spec(a@.score, a@.history) == corrected_score_spec(b@.score, b@.history)
        && lex_lt(lower_of(a@.name), lower_of(b@.name)))
}

/// `a` may stand at or before `b`.
pub open spec fn rank_le(a: App, b: App) -> bool {
    !rank_lt(b, a)
}

/// Each entry stands at or before its successor.
pub open spec fn sorted_by_rank(s: Seq<App>) -> bool {
    forall|i: int| 0 <= i && i + 1 < s.len() ==> rank_le(#[trigger] s[i], s[i + 1])
}

/// Nothing stands strictly before itself or both ways around.
pub proof fn lemma_rank_lt_asymmetric(a: App, b: App)
    ensures
        !(rank_lt(a, b) && rank_lt(b, a)),
{
    crate::text::lemma_lex_lt_asymmetric(lower_of(a@.name), lower_of(b@.name));
}

/// Compares two entries by the ranking order.
fn rank_before(a: &App, b: &App) -> (r: bool)
    ensures
        r == rank_lt(*a, *b),
{
    let ca = a.corrected_score_wide();
    let cb = b.corrected_score_wide();
    if ca > cb {
        true
    } else if ca == cb {
        let la = lowercase(a.name.as_str());
        let lb = lowercase(b.name.as_str());
        str_lt(la.as_str(), lb.as_str())
    } else {
        false
    }
}

/// `x` placed into `s` directly before the first entry that does not
/// strictly precede it, so that an equal-ranked newcomer stands first.
pub open spec fn insert_ranked(x: App, s: Seq<App>) -> Seq<App>
    decreases s.len(),
{
    if s.len() == 0 {
        seq![x]
    } else if rank_lt(s[0], x) {
        seq![s[0]] + insert_ranked(x, s.drop_first())
    } else {
        seq![x] + s
    }
}

/// Stable insertion sort by the ranking order.
pub open spec fn sort_ranked(s: Seq<App>) -> Seq<App>
    decreases s.len(),
{
    if s.len() == 0 {
        s
    } else {
        insert_ranked(s[0], sort_ranked(s.drop_first()))
    }
}

/// Inserting keeps sortedness and adds exactly the new entry.
pub proof fn lemma_insert_ranked_sorted(x: App, s: Seq<App>)
    requires
        sorted_by_rank(s),
    ensures
        sorted_by_rank(insert_ranked(x, s)),
        insert_ranked(x, s).to_multiset() == s.to_multiset().insert(x),
        insert_ranked(x, s).len() == s.len() + 1,
    decreases s.len(),
{
    broadcast use vstd::seq_lib::group_to_multiset_ensures;

    if s.len() == 0 {
        assert(seq![x].to_multiset() =~= s.to_multiset().insert(x)) by {
            assert(seq![x] =~= s.push(x));
        }
    } else if rank_lt(s[0], x) {
        assert(sorted_by_rank(s.drop_first()));
        lemma_insert_ranked_sorted(x, s.drop_first());
        let t = insert_ranked(x, s.drop_first());
        let r = seq![s[0]] + t;
        assert(r[0] == s[0]);
        assert(forall|i: int| 1 <= i < r.len() ==> r[i] == t[i - 1]);
        lemma_rank_lt_asymmetric(s[0], x);
        assert(t.len() > 0);
        // the head of t is either x or the old second entry; either way
        // the old head may stand before it
        if s.drop_first().len() == 0 {
            assert(t =~= seq![x]);
            assert(rank_le(s[0], t[0]));
        } else if rank_lt(s.drop_first()[0], x) {
            assert(t[0] == s.drop_first()[0]);
            assert(rank_le(s[0], t[0]));
        } else {
            assert(t[0] == x);
            assert(rank_le(s[0], t[0]));
        }
        assert(sorted_by_rank(r));
        assert(r.to_multiset() == s.to_multiset().insert(x)) by {
            assert(s =~= seq![s[0]] + s.drop_first());
            vstd::seq_lib::lemma_multiset_commutative(seq![s[0]], s.drop_first());
            vstd::seq_lib::lemma_multiset_commutative(seq![s[0]], t);
            assert(t.to_multiset() == s.drop_first().to_multiset().insert(x));
            assert(seq![s[0]].to_multiset().add(s.drop_first().to_multiset().insert(x)) =~= seq![
                s[0],
            ].to_multiset().add(s.drop_first().to_multiset()).insert(x));
        }
    } else {
        let r = seq![x] + s;
        assert(r[0] == x);
        assert(forall|i: int| 1 <= i < r.len() ==> r[i] == s[i - 1]);
        assert(rank_le(x, s[0]));
        assert(sorted_by_rank(r));
        assert(r.to_multiset() == s.to_multiset().insert(x)) by {
            vstd::seq_lib::lemma_multiset_commutative(seq![x], s);
            assert(seq![x].to_multiset().add(s.to_multiset()) =~= s.to_multiset().insert(x));
        }
    }
}

/// The sort returns a sorted permutation of its input.
pub proof fn lemma_sort_ranked_sorted(s: Seq<App>)
    ensures
        sorted_by_rank(sort_ranked(s)),
        sort_ranked(s).to_multiset() == s.to_multiset(),
        sort_ranked(s).len() == s.len(),
    decreases s.len(),
{
    broadcast use vstd::seq_lib::group_to_multiset_ensures;

    if s.len() > 0 {
        lemma_sort_ranked_sorted(s.drop_first());
        lemma_insert_ranked_sorted(s[0], sort_ranked(s.drop_first()));
        assert(s =~= seq![s[0]] + s.drop_first());
        vstd::seq_lib::lemma_multiset_commutative(seq![s[0]], s.drop_first());
        assert(s.to_multiset() =~= s.drop_first().to_multiset().insert(s[0]));
    }
}

/// A sequence already in ranking order is the sort's fixed point.
pub proof fn lemma_sort_ranked_fixed(s: Seq<App>)
    requires
        sorted_by_rank(s),
    ensures
        sort_ranked(s) == s,
    decreases s.len(),
{
    if s.len() > 0 {
        let rest = s.drop_first();
        assert(sorted_by_rank(rest));
        lemma_sort_ranked_fixed(rest);
        if rest.len() == 0 {
            assert(insert_ranked(s[0], rest) =~= s);
        } else {
            assert(rank_le(s[0], rest[0]));
            assert(!rank_lt(rest[0], s[0]));
            assert(insert_ranked(s[0], rest) =~= seq![s[0]] + rest);
            assert(seq![s[0]] + rest =~= s);
        }
    }
}

/// Sorting preserves that every entry carries score 0.
proof fn lemma_zero_scores_sorted(t: Seq<App>)
    requires
        forall|j: int| 0 <= j < t.len() ==> #[trigger] t[j].score == 0,
    ensures
        forall|j: int| 0 <= j < sort_ranked(t).len() ==> #[trigger] sort_ranked(t)[j].score == 0,
{
    broadcast use vstd::seq_lib::group_to_multiset_ensures;

    lemma_sort_ranked_sorted(t);
    let r = sort_ranked(t);
    assert forall|j: int| 0 <= j < r.len() implies #[trigger] r[j].score == 0 by {
        let x = r[j];
        assert(r.contains(x));
        assert(r.to_multiset().count(x) > 0);
        assert(t.to_multiset().count(x) > 0);
        assert(t.contains(x));
        let i = choose|i: int| 0 <= i < t.len() && t[i] == x;
        assert(t[i].score == 0);
    }
}

/// Sorts entries by the ranking order, stably.
fn insert_entry(x: App, s: Vec<App>) -> (r: Vec<App>)
    ensures
        r@ == insert_ranked(x, s@),
    decreases s@.len(),
{
    let mut s = s;
    let ghost s0 = s@;
    if s.len() == 0 {
        s.push(x);
        proof {
            assert(s@ =~= insert_ranked(x, s0));
        }
        s
    } else if rank_before(&s[0], &x) {
        let head = s.remove(0);
        proof {
            assert(s@ =~= s0.drop_first());
        }
        let mut r = insert_entry(x, s);
        r.insert(0, head);
        proof {
            assert(r@ =~= seq![head] + insert_ranked(x, s0.drop_first()));
            assert(r@ =~= insert_ranked(x, s0));
        }
        r
    } else {
        s.insert(0, x);
        proof {
            assert(s@ =~= seq![x] + s0);
        }
        s
    }
}

/// Sorts a list of entries by corrected score descending, ties broken by
/// case-folded name ascending; entries that compare equal keep their
/// order.
pub fn sort_entries(v: Vec<App>) -> (r: Vec<App>)
    ensures
        r@ == sort_ranked(v@),
    decreases v@.len(),
{
    let mut v = v;
    let ghost v0 = v@;
    if v.len() == 0 {
        v
    } else {
        let head = v.remove(0);
        proof {
            assert(v@ =~= v0.drop_first());
        }
        let sorted = sort_entries(v);
        insert_entry(head, sorted)
    }
}

/// `a` with its transient score replaced.
pub open spec fn with_score(a: App, sc: i64) -> App {
    App { score: sc, ..a }
}

/// The entries of `s` that match query `q`, in order, each carrying its
/// fresh raw score.
pub open spec fn matched_of(s: Seq<App>, q: Seq<char>) -> Seq<App>
    decreases s.len(),
{
    if s.len() == 0 {
        Seq::empty()
    } else {
        let rest = matched_of(s.drop_last(), q);
        match fuzzy_of(s.last()@.name, q) {
            Option::Some(sc) => rest + seq![with_score(s.last(), sc)],
            Option::None => rest,
        }
    }
}

/// The entries of `s` that do not match query `q`, in order, each with its
/// score reset to 0.
pub open spec fn unmatched_of(s: Seq<App>, q: Seq<char>) -> Seq<App>
    decreases s.len(),
{
    if s.len() == 0 {
        Seq::empty()
    } else {
        let rest = unmatched_of(s.drop_last(), q);
        match fuzzy_of(s.last()@.name, q) {
            Option::Some(_) => rest,
            Option::None => rest + seq![with_score(s.last(), 0)],
        }
    }
}

/// The live catalog partition: all discovered entries stand either in
/// `shown` (they match the query) or in `hidden` (they do not).
pub struct UI {
    /// Entries matching the current query, sorted by the ranking order.
    pub shown: Vec<App>,
    /// Entries excluded by the current query.
    pub hidden: Vec<App>,
    /// Index of the highlighted entry in `shown`; `None` only when
    /// `shown` is empty.
    pub selected: Option<usize>,
    /// Info lines describing the highlighted entry.
    pub text: Vec<String>,
    /// The query entries are matched against.
    pub query: String,
    /// How much of each entry the info lines show.
    pub verbose: u64,
}

/// The cursor points into `shown`, and points nowhere only when there is
/// nothing to point at.
pub open spec fn ui_wf(ui: UI) -> bool {
    match ui.selected {
        Option::Some(i) => i < ui.shown@.len(),
        Option::None => ui.shown@.len() == 0,
    }
}

impl UI {
    /// A partition holding `items` as the shown entries, with an empty
    /// query, the cursor on the first entry, and no info text.
    pub fn new(items: Vec<App>) -> (ui: UI)
        ensures
            ui.shown@ == items@,
            ui.hidden@.len() == 0,
            ui.selected == (if items@.len() == 0 {
                Option::None::<usize>
            } else {
                Option::Some(0usize)
            }),
            ui.text@.len() == 0,
            ui.query@ == Seq::<char>::empty(),
            ui.verbose == 0,
            ui_wf(ui),
    {
        let selected: Option<usize> = if items.len() == 0 {
            Option::None
        } else {
            Option::Some(0)
        };
        UI {
            shown: items,
            hidden: Vec::new(),
            selected,
            text: Vec::new(),
            query: String::new(),
            verbose: 0,
        }
    }

    /// Sets the verbosity level for the info lines.
    pub fn verbosity(&mut self, b: u64)
        ensures
            *final(self) == (UI { verbose: b, ..*old(self) }),
    {
        self.verbose = b;
    }

    /// Hands a newly discovered entry to the partition; it stands in
    /// `hidden` until the next re-partition.
    pub fn take_in(&mut self, app: App)
        ensures
            *final(self) == (UI { hidden: final(self).hidden, ..*old(self) }),
            final(self).hidden@ == old(self).hidden@.push(app),
    {
        self.hidden.push(app);
    }

    /// Re-partitions every entry against the current query: an entry
    /// stands in `shown` with its fresh score exactly when the matcher
    /// accepts it, else in `hidden` with score 0; `shown` is sorted by
    /// the ranking order and the cursor returns to the first entry.
    pub fn filter(&mut self)
        ensures
            final(self).shown@ == sort_ranked(
                matched_of(old(self).shown@ + old(self).hidden@, old(self).query@),
            ),
            final(self).hidden@ == unmatched_of(
                old(self).shown@ + old(self).hidden@,
                old(self).query@,
            ),
            final(self).selected == (if final(self).shown@.len() == 0 {
                Option::None::<usize>
            } else {
                Option::Some(0usize)
            }),
            final(self).query == old(self).query,
            final(self).text == old(self).text,
            final(self).verbose == old(self).verbose,
            ui_wf(*final(self)),
            final(self).shown@.len() + final(self).hidden@.len() == old(self).shown@.len() + old(
                self,
            ).hidden@.len(),
            old(self).query@.len() == 0 ==> final(self).hidden@.len() == 0,
            old(self).query@.len() == 0 ==> final(self).shown@.len() == old(self).shown@.len()
                + old(self).hidden@.len(),
            old(self).query@.len() == 0 ==> (forall|i: int|
                0 <= i < final(self).shown@.len() ==> #[trigger] final(self).shown@[i].score
                    == 0),
    {
        let mut all: Vec<App> = Vec::new();
        core::mem::swap(&mut all, &mut self.shown);
        let mut hid: Vec<App> = Vec::new();
        core::mem::swap(&mut hid, &mut self.hidden);
        all.append(&mut hid);
        let ghost allv = all@;
        let ghost qv = self.query@;
        let mut new_shown: Vec<App> = Vec::new();
        let mut new_hidden: Vec<App> = Vec::new();
        let n = all.len();
        let mut k: usize = 0;
        proof {
            assert(allv.take(0) =~= Seq::<App>::empty());
            assert(all@ =~= allv.skip(0));
        }
        while k < n
            invariant
                0 <= k <= n,
                n == allv.len(),
                all@ == allv.skip(k as int),
                qv == self.query@,
                new_shown@ == matched_of(allv.take(k as int), qv),
                new_hidden@ == unmatched_of(allv.take(k as int), qv),
                new_shown@.len() + new_hidden@.len() == k,
                qv.len() == 0 ==> new_hidden@.len() == 0 && new_shown@.len() == k,
                qv.len() == 0 ==> (forall|j: int|
                    0 <= j < new_shown@.len() ==> #[trigger] new_shown@[j].score == 0),
            decreases n - k,
        {
            let mut app = all.remove(0);
            let ghost orig = app;
            proof {
                assert(allv.skip(k as int)[0] == allv[k as int]);
                assert(orig == allv[k as int]);
                assert(all@ =~= allv.skip(k + 1));
                assert(allv.take(k + 1).drop_last() =~= allv.take(k as int));
                assert(allv.take(k + 1).last() == allv[k as int]);
            }
            match fuzzy_match(app.name.as_str(), self.query.as_str()) {
                Option::Some(sc) => {
                    app.score = sc;
                    proof {
                        assert(app =~= with_score(orig, sc));
                    }
                    new_shown.push(app);
                    proof {
                        assert(new_shown@ =~= matched_of(allv.take(k + 1), qv));
                        assert(new_hidden@ =~= unmatched_of(allv.take(k + 1), qv));
                    }
                },
                Option::None => {
                    app.score = 0;
                    proof {
                        assert(app =~= with_score(orig, 0));
                    }
                    new_hidden.push(app);
                    proof {
                        assert(new_shown@ =~= matched_of(allv.take(k + 1), qv));
                        assert(new_hidden@ =~= unmatched_of(allv.take(k + 1), qv));
                    }
                },
            }
            k = k + 1;
        }
        proof {
            assert(allv.take(n as int) =~= allv);
            lemma_sort_ranked_sorted(new_shown@);
            if qv.len() == 0 {
                lemma_zero_scores_sorted(new_shown@);
            }
        }
        let sorted = sort_entries(new_shown);
        self.shown = sorted;
        self.hidden = new_hidden;
        if self.shown.len() == 0 {
            self.selected = Option::None;
        } else {
            self.selected = Option::Some(0);
        }
    }

    /// The ordered matching entries: the read-only view the rendering
    /// layer draws from.
    pub fn matching(&self) -> (r: &Vec<App>)
        ensures
            r@ == self.shown@,
    {
        &self.shown
    }

    /// Replaces the query and re-partitions.
    pub fn set_query(&mut self, q: String)
        ensures
            final(self).query == q,
            final(self).shown@ == sort_ranked(
                matched_of(old(self).shown@ + old(self).hidden@, q@),
            ),
            final(self).hidden@ == unmatched_of(old(self).shown@ + old(self).hidden@, q@),
            final(self).selected == (if final(self).shown@.len() == 0 {
                Option::None::<usize>
            } else {
                Option::Some(0usize)
            }),
            final(self).text == old(self).text,
            final(self).verbose == old(self).verbose,
            ui_wf(*final(self)),
            final(self).shown@.len() + final(self).hidden@.len() == old(self).shown@.len() + old(
                self,
            ).hidden@.len(),
            q@.len() == 0 ==> final(self).hidden@.len() == 0,
            q@.len() == 0 ==> final(self).shown@.len() == old(self).shown@.len() + old(
                self,
            ).hidden@.len(),
            q@.len() == 0 ==> (forall|i: int|
                0 <= i < final(self).shown@.len() ==> #[trigger] final(self).shown@[i].score
                    == 0),
    {
        self.query = q;
        self.filter();
    }

    /// Moves the cursor to the first entry.
    pub fn select_first(&mut self)
        ensures
            *final(self) == (UI { selected: final(self).selected, ..*old(self) }),
            final(self).selected == (if old(self).shown@.len() == 0 {
                Option::None::<usize>
            } else {
                Option::Some(0usize)
            }),
            ui_wf(*final(self)),
    {
        if self.shown.len() == 0 {
            self.selected = Option::None;
        } else {
            self.selected = Option::Some(0);
        }
    }

    /// Moves the cursor to the last entry.
    pub fn select_last(&mut self)
        ensures
            *final(self) == (UI { selected: final(self).selected, ..*old(self) }),
            final(self).selected == (if old(self).shown@.len() == 0 {
                Option::None::<usize>
            } else {
                Option::Some((old(self).shown@.len() - 1) as usize)
            }),
            ui_wf(*final(self)),
    {
        if self.shown.len() == 0 {
            self.selected = Option::None;
        } else {
            self.selected = Option::Some(self.shown.len() - 1);
        }
    }

    /// Steps the cursor forward; past the last entry it wraps to the
    /// first when `wrap` is set, else it stays.
    pub fn select_next(&mut self, wrap: bool)
        requires
            ui_wf(*old(self)),
        ensures
            *final(self) == (UI { selected: final(self).selected, ..*old(self) }),
            final(self).selected == (match old(self).selected {
                Option::Some(i) => if i + 1 < old(self).shown@.len() {
                    Option::Some((i + 1) as usize)
                } else if wrap {
                    Option::Some(0usize)
                } else {
                    Option::Some(i)
                },
                Option::None => Option::None::<usize>,
            }),
            ui_wf(*final(self)),
    {
        if let Option::Some(i) = self.selected {
            if i < self.shown.len() - 1 {
                self.selected = Option::Some(i + 1);
            } else if wrap {
                self.selected = Option::Some(0);
            }
        }
    }

    /// Steps the cursor backward; before the first entry it wraps to the
    /// last when `wrap` is set, else it stays.
    pub fn select_prev(&mut self, wrap: bool)
        requires
            ui_wf(*old(self)),
        ensures
            *final(self) == (UI { selected: final(self).selected, ..*old(self) }),
            final(self).selected == (match old(self).selected {
                Option::Some(i) => if i > 0 {
                    Option::Some((i - 1) as usize)
                } else if wrap {
                    Option::Some((old(self).shown@.len() - 1) as usize)
                } else {
                    Option::Some(i)
                },
                Option::None => Option::None::<usize>,
            }),
            ui_wf(*final(self)),
    {
        if let Option::Some(i) = self.selected {
            if i > 0 {
                self.selected = Option::Some(i - 1);
            } else if wrap {
                self.selected = Option::Some(self.shown.len() - 1);
            }
        }
    }
}


/// The info lines for the highlighted entry under verbosity `verbose`:
/// its name and description; from verbosity 1 a blank line and the
/// command, marked when it expects a terminal; from verbosity 2 the
/// launch count and the raw match score. No selection, no lines.
pub open spec fn info_lines(shown: Seq<App>, selected: Option<usize>, verbose: u64) -> Seq<
    Seq<char>,
> {
    match selected {
        Option::None => Seq::empty(),
        Option::Some(i) => {
            let app = shown[i as int];
            let base = seq![app@.name, app@.description];
            let with_cmd = if verbose >= 1 {
                base + seq![
                    Seq::<char>::empty(),
                    (if app@.is_terminal {
                        "Exec (terminal): "@
                    } else {
                        "Exec: "@
                    }) + app@.command,
                ]
            } else {
                base
            };
            if verbose >= 2 {
                with_cmd + seq![
                    "Times run: "@ + crate::text::dec_rep(app@.history as int),
                    "\nMatching score: "@ + crate::text::dec_rep_signed(app@.score),
                ]
            } else {
                with_cmd
            }
        },
    }
}

impl UI {
    /// Rebuilds the info text for the current selection.
    pub fn info(&mut self)
        requires
            ui_wf(*old(self)),
        ensures
            *final(self) == (UI { text: final(self).text, ..*old(self) }),
            final(self).text@.map_values(|l: String| l@) == info_lines(
                old(self).shown@,
                old(self).selected,
                old(self).verbose,
            ),
    {
        proof {
            reveal_strlit("Exec (terminal): ");
            reveal_strlit("Exec: ");
            reveal_strlit("Times run: ");
            reveal_strlit("\nMatching score: ");
        }
        let mut text: Vec<String> = Vec::new();
        match self.selected {
            Option::None => {
                proof {
                    assert(text@.map_values(|l: String| l@) =~= Seq::<Seq<char>>::empty());
                }
            },
            Option::Some(i) => {
                let app = &self.shown[i];
                text.push(app.name.clone());
                text.push(app.description.clone());
                if self.verbose >= 1 {
                    text.push(String::new());
                    let prefix: &str = if app.is_terminal {
                        "Exec (terminal): "
                    } else {
                        "Exec: "
                    };
                    text.push(prefix.to_owned().concat(app.command.as_str()));
                    if self.verbose >= 2 {
                        let runs = crate::text::u64_to_string(app.history);
                        text.push("Times run: ".to_owned().concat(runs.as_str()));
                        let score = crate::text::i64_to_string(app.score);
                        text.push("\nMatching score: ".to_owned().concat(score.as_str()));
                    }
                }
                proof {
                    assert(text@.map_values(|l: String| l@) =~= info_lines(
                        self.shown@,
                        self.selected,
                        self.verbose,
                    ));
                }
            },
        }
        self.text = text;
    }
}


/// Every entry of `t` matches `q`, and carries exactly its raw score.
pub open spec fn all_matching(t: Seq<App>, q: Seq<char>) -> bool {
    forall|j: int|
        0 <= j < t.len() ==> fuzzy_of(#[trigger] t[j]@.name, q) == Option::Some(t[j].score)
}

/// No entry of `t` matches `q`, and each carries score 0.
pub open spec fn none_matching(t: Seq<App>, q: Seq<char>) -> bool {
    forall|j: int|
        0 <= j < t.len() ==> fuzzy_of(#[trigger] t[j]@.name, q) is None && t[j].score == 0
}

/// The matching side of a partition matches throughout, the excluded side
/// nowhere.
pub proof fn lemma_partition_scores(s: Seq<App>, q: Seq<char>)
    ensures
        all_matching(matched_of(s, q), q),
        none_matching(unmatched_of(s, q), q),
    decreases s.len(),
{
    if s.len() > 0 {
        lemma_partition_scores(s.drop_last(), q);
        match fuzzy_of(s.last()@.name, q) {
            Option::Some(sc) => {
                let t = matched_of(s.drop_last(), q) + seq![with_score(s.last(), sc)];
                assert(t.last() == with_score(s.last(), sc));
                assert(t.last()@.name == s.last()@.name);
                assert(forall|j: int| 0 <= j < t.len() - 1 ==> t[j] == matched_of(
                    s.drop_last(),
                    q,
                )[j]);
            },
            Option::None => {
                let t = unmatched_of(s.drop_last(), q) + seq![with_score(s.last(), 0)];
                assert(t.last() == with_score(s.last(), 0));
                assert(t.last()@.name == s.last()@.name);
                assert(forall|j: int| 0 <= j < t.len() - 1 ==> t[j] == unmatched_of(
                    s.drop_last(),
                    q,
                )[j]);
            },
        }
    }
}

/// Both sides of the partition split over concatenation.
pub proof fn lemma_partition_append(a: Seq<App>, b: Seq<App>, q: Seq<char>)
    ensures
        matched_of(a + b, q) == matched_of(a, q) + matched_of(b, q),
        unmatched_of(a + b, q) == unmatched_of(a, q) + unmatched_of(b, q),
    decreases b.len(),
{
    if b.len() == 0 {
        assert(a + b =~= a);
        assert(matched_of(a, q) + matched_of(b, q) =~= matched_of(a, q));
        assert(unmatched_of(a, q) + unmatched_of(b, q) =~= unmatched_of(a, q));
    } else {
        lemma_partition_append(a, b.drop_last(), q);
        assert((a + b).drop_last() =~= a + b.drop_last());
        assert((a + b).last() == b.last());
        match fuzzy_of(b.last()@.name, q) {
            Option::Some(sc) => {
                assert(matched_of(a + b, q) =~= matched_of(a, q) + matched_of(b, q));
                assert(unmatched_of(a + b, q) =~= unmatched_of(a, q) + unmatched_of(b, q));
            },
            Option::None => {
                assert(matched_of(a + b, q) =~= matched_of(a, q) + matched_of(b, q));
                assert(unmatched_of(a + b, q) =~= unmatched_of(a, q) + unmatched_of(b, q));
            },
        }
    }
}

/// A sequence whose entries all match with their stored scores passes
/// through the partition unchanged.
pub proof fn lemma_partition_of_matching(t: Seq<App>, q: Seq<char>)
    requires
        all_matching(t, q),
    ensures
        matched_of(t, q) == t,
        unmatched_of(t, q).len() == 0,
    decreases t.len(),
{
    if t.len() > 0 {
        assert(all_matching(t.drop_last(), q)) by {
            assert(forall|j: int| 0 <= j < t.len() - 1 ==> t.drop_last()[j] == t[j]);
        }
        lemma_partition_of_matching(t.drop_last(), q);
        assert(fuzzy_of(t.last()@.name, q) == Option::Some(t.last().score));
        assert(with_score(t.last(), t.last().score) =~= t.last());
        assert(t.drop_last() + seq![t.last()] =~= t);
        assert(matched_of(t, q) =~= t);
    }
}

/// A sequence none of whose entries matches passes through the partition
/// wholly to the excluded side.
pub proof fn lemma_partition_of_unmatching(t: Seq<App>, q: Seq<char>)
    requires
        none_matching(t, q),
    ensures
        matched_of(t, q).len() == 0,
        unmatched_of(t, q) == t,
    decreases t.len(),
{
    if t.len() > 0 {
        assert(none_matching(t.drop_last(), q)) by {
            assert(forall|j: int| 0 <= j < t.len() - 1 ==> t.drop_last()[j] == t[j]);
        }
        lemma_partition_of_unmatching(t.drop_last(), q);
        assert(fuzzy_of(t.last()@.name, q) is None);
        assert(with_score(t.last(), 0) =~= t.last());
        assert(t.drop_last() + seq![t.last()] =~= t);
        assert(unmatched_of(t, q) =~= t);
    }
}

/// Sorting keeps `all_matching`: the sort permutes its input.
pub proof fn lemma_all_matching_sorted(t: Seq<App>, q: Seq<char>)
    requires
        all_matching(t, q),
    ensures
        all_matching(sort_ranked(t), q),
{
    broadcast use vstd::seq_lib::group_to_multiset_ensures;

    lemma_sort_ranked_sorted(t);
    let r = sort_ranked(t);
    assert forall|j: int| 0 <= j < r.len() implies fuzzy_of(#[trigger] r[j]@.name, q)
        == Option::Some(r[j].score) by {
        let x = r[j];
        assert(r.contains(x));
        assert(r.to_multiset().count(x) > 0);
        assert(t.to_multiset().count(x) > 0);
        assert(t.contains(x));
        let i = choose|i: int| 0 <= i < t.len() && t[i] == x;
        assert(fuzzy_of(t[i]@.name, q) == Option::Some(t[i].score));
    }
}

/// Setting the same query twice in a row re-partitions to the very same
/// shown order and the very same excluded entries: from any partition
/// `(shown0, hidden0)`, one application of the query yields
/// `(shown1, hidden1)`, and a second application changes nothing.
pub proof fn lemma_set_query_idempotent(shown0: Seq<App>, hidden0: Seq<App>, q: Seq<char>)
    ensures
        ({
            let shown1 = sort_ranked(matched_of(shown0 + hidden0, q));
            let hidden1 = unmatched_of(shown0 + hidden0, q);
            sort_ranked(matched_of(shown1 + hidden1, q)) == shown1 && unmatched_of(
                shown1 + hidden1,
                q,
            ) == hidden1
        }),
{
    let u = shown0 + hidden0;
    let shown1 = sort_ranked(matched_of(u, q));
    let hidden1 = unmatched_of(u, q);
    lemma_partition_scores(u, q);
    lemma_all_matching_sorted(matched_of(u, q), q);
    lemma_partition_append(shown1, hidden1, q);
    lemma_partition_of_matching(shown1, q);
    lemma_partition_of_unmatching(hidden1, q);
    assert(matched_of(shown1 + hidden1, q) =~= shown1);
    assert(unmatched_of(shown1 + hidden1, q) =~= hidden1);
    lemma_sort_ranked_sorted(matched_of(u, q));
    lemma_sort_ranked_fixed(shown1);
}


} // verus!
