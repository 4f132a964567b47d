//! The consecutive-match grouper: scans lines in order, merging runs of
//! consecutive equal lines (terminators stripped for comparison, optionally
//! case-insensitively) into groups of a representative line and a count.
//! The representative keeps the first-seen casing and its own terminator;
//! groups are never merged non-consecutively.
use crate::chars::{fold_code, fold_code_of, fold_seq, is_line_terminator, is_line_terminator_char};
use crate::lines::{lines_of, split_lines};
use crate::numfmt::{dec_digits, fmt_u64, pad_left, right_justified};
use crate::uniqr::args::Uniqr;
use vstd::prelude::*;

verus! {

/// A line with its trailing carriage-return and newline characters removed:
/// the form lines are compared in.
pub open spec fn trim_terminators(s: Seq<char>) -> Seq<char>
    decreases s.len(),
{
    if s.len() > 0 && is_line_terminator(s.last()) {
        trim_terminators(s.drop_last())
    } else {
        s
    }
}

/// Whether two lines belong to the same group: equal once terminators are
/// stripped, under case folding when configured.
pub open spec fn lines_match(a: Seq<char>, b: Seq<char>, ignore_case: bool) -> bool {
    if ignore_case {
        fold_seq(trim_terminators(a)) == fold_seq(trim_terminators(b))
    } else {
        trim_terminators(a) == trim_terminators(b)
    }
}

/// The length of a line once trailing terminators are stripped; the
/// stripped line is exactly that prefix.
fn trimmed_len(s: &str) -> (k: usize)
    ensures
        k <= s@.len(),
        trim_terminators(s@) == s@.take(k as int),
{
    let n = s.unicode_len();
    let mut k = n;
    proof {
        assert(s@.take(n as int) =~= s@);
    }
    loop
        invariant_except_break
            k <= n,
            n == s@.len(),
            trim_terminators(s@) == trim_terminators(s@.take(k as int)),
        ensures
            k <= s@.len(),
            trim_terminators(s@) == s@.take(k as int),
        decreases k,
    {
        if k == 0 {
            proof {
                assert(s@.take(0) =~= Seq::<char>::empty());
            }
            break ;
        }
        let c = s.get_char(k - 1);
        proof {
            assert(s@.take(k as int).last() == s@[k - 1]);
        }
        if !is_line_terminator_char(c) {
            break ;
        }
        proof {
            assert(s@.take(k as int).drop_last() =~= s@.take(k - 1));
        }
        k -= 1;
    }
    k
}

/// One match group: the first-seen line of a run, verbatim with its
/// terminator, and how many consecutive lines compared equal to it.
pub struct GroupView {
    pub line: Seq<char>,
    pub count: nat,
}

/// One match group as built at runtime.
#[derive(Debug)]
pub struct UniqMatchItem {
    line: String,
    count: u64,
}

impl View for UniqMatchItem {
    type V = GroupView;

    closed spec fn view(&self) -> GroupView {
        GroupView { line: self.line@, count: self.count as nat }
    }
}

impl DeepView for UniqMatchItem {
    type V = GroupView;

    closed spec fn deep_view(&self) -> GroupView {
        self.view()
    }
}

impl UniqMatchItem {
    /// An empty group: no line yet, count zero.
    pub fn new() -> (r: Self)
        ensures
            r@.line == Seq::<char>::empty(),
            r@.count == 0,
    {
        let r = UniqMatchItem { line: String::new(), count: 0 };
        r
    }

    /// Starts a group with its representative line, seen once.
    pub fn with_line(line: &str) -> (r: Self)
        ensures
            r@.line == line@,
            r@.count == 1,
    {
        UniqMatchItem { line: String::from_str(line), count: 1 }
    }

    /// Records one more consecutive occurrence.
    pub fn increment_count(&mut self)
        requires
            old(self)@.count < u64::MAX,
        ensures
            final(self)@.line == old(self)@.line,
            final(self)@.count == old(self)@.count + 1,
    {
        self.count = self.count + 1;
    }

    /// Whether `line` continues this group: equal to the representative
    /// with terminators stripped, case-insensitively when configured.
    pub fn is_line_match(&self, line: &str, ignore_case: bool) -> (r: bool)
        ensures
            r == lines_match(self@.line, line@, ignore_case),
    {
        let ka = trimmed_len(self.line.as_str());
        let kb = trimmed_len(line);
        let ghost ta = trim_terminators(self@.line);
        let ghost tb = trim_terminators(line@);
        if ka != kb {
            proof {
                assert(ta.len() != tb.len());
                assert(fold_seq(ta).len() != fold_seq(tb).len());
            }
            return false;
        }
        let mut i: usize = 0;
        while i < ka
            invariant
                i <= ka,
                ka == kb,
                ka <= self@.line.len(),
                kb <= line@.len(),
                ta == trim_terminators(self@.line),
                tb == trim_terminators(line@),
                ta == self@.line.take(ka as int),
                tb == line@.take(kb as int),
                forall|j: int|
                    0 <= j < i ==> fold_code(#[trigger] ta[j]) == fold_code(tb[j]),
                !ignore_case ==> forall|j: int| 0 <= j < i ==> ta[j] == tb[j],
            decreases ka - i,
        {
            let ca = self.line.as_str().get_char(i);
            let cb = line.get_char(i);
            proof {
                assert(ta[i as int] == ca);
                assert(tb[i as int] == cb);
            }
            if ignore_case {
                if fold_code_of(ca) != fold_code_of(cb) {
                    proof {
                        assert(fold_seq(ta)[i as int] != fold_seq(tb)[i as int]);
                    }
                    return false;
                }
            } else {
                if ca != cb {
                    return false;
                }
            }
            i += 1;
        }
        proof {
            if ignore_case {
                assert(fold_seq(ta) =~= fold_seq(tb));
            } else {
                assert(ta =~= tb);
            }
        }
        true
    }

    /// Whether the group was seen exactly once.
    pub fn is_unique(&self) -> (r: bool)
        ensures
            r == (self@.count == 1),
    {
        self.count == 1
    }

    /// Whether the group was seen more than once.
    pub fn is_duplicate(&self) -> (r: bool)
        ensures
            r == (self@.count > 1),
    {
        self.count > 1
    }
}

/// The groups that scanning `ls` in order produces: each line either
/// extends the group it matches at the end, or opens a new group of one.
pub open spec fn groups_of(ls: Seq<Seq<char>>, ignore_case: bool) -> Seq<GroupView>
    decreases ls.len(),
{
    if ls.len() == 0 {
        Seq::empty()
    } else {
        let gs = groups_of(ls.drop_last(), ignore_case);
        let l = ls.last();
        if gs.len() > 0 && lines_match(gs.last().line, l, ignore_case) {
            gs.update(gs.len() - 1, GroupView { line: gs.last().line, count: gs.last().count + 1 })
        } else {
            gs.push(GroupView { line: l, count: 1 })
        }
    }
}

/// Grouping invariants: every count lies between one and the number of
/// lines, there are no more groups than lines, and no two adjacent groups
/// match each other (else they would have been one group).
pub proof fn lemma_groups_wf(ls: Seq<Seq<char>>, ignore_case: bool)
    ensures
        groups_of(ls, ignore_case).len() <= ls.len(),
        ls.len() > 0 ==> groups_of(ls, ignore_case).len() >= 1,
        forall|j: int|
            0 <= j < groups_of(ls, ignore_case).len() ==> 1 <= (#[trigger] groups_of(
                ls,
                ignore_case,
            )[j]).count <= ls.len(),
        forall|j: int|
            0 <= j < groups_of(ls, ignore_case).len() - 1 ==> !lines_match(
                (#[trigger] groups_of(ls, ignore_case)[j]).line,
                groups_of(ls, ignore_case)[j + 1].line,
                ignore_case,
            ),
    decreases ls.len(),
{
    if ls.len() > 0 {
        lemma_groups_wf(ls.drop_last(), ignore_case);
    }
}

/// The grouper over one whole input, holding its groups in input order and
/// the flags it renders under.
#[derive(Debug)]
pub struct UniqMatcher<'a> {
    matches: Vec<UniqMatchItem>,
    flags: &'a Uniqr,
}

impl<'a> View for UniqMatcher<'a> {
    type V = Seq<GroupView>;

    closed spec fn view(&self) -> Seq<GroupView> {
        self.matches.deep_view()
    }
}

impl<'a> UniqMatcher<'a> {
    /// The flags the matcher renders under.
    pub closed spec fn spec_flags(&self) -> Uniqr {
        *self.flags
    }

    /// Groups the lines of one input text in order.
    pub fn from_reader(text: &str, flags: &'a Uniqr) -> (r: Self)
        ensures
            r@ == groups_of(lines_of(text@), flags.ignore_case),
            r.spec_flags() == *flags,
    {
        let lines = split_lines(text);
        let ghost lv = lines.deep_view();
        let mut matches: Vec<UniqMatchItem> = Vec::new();
        let mut i: usize = 0;
        proof {
            assert(matches.deep_view() =~= groups_of(lv.take(0), flags.ignore_case));
        }
        while i < lines.len()
            invariant
                i <= lines@.len(),
                lv == lines.deep_view(),
                matches.deep_view() == groups_of(lv.take(i as int), flags.ignore_case),
            decreases lines@.len() - i,
        {
            let ghost pre = matches.deep_view();
            proof {
                assert(lv.take(i + 1).drop_last() =~= lv.take(i as int));
                assert(lv.take(i + 1).last() == lv[i as int]);
                lemma_groups_wf(lv.take(i as int), flags.ignore_case);
            }
            let line: &String = &lines[i];
            proof {
                assert(line@ == lv[i as int]);
            }
            let n = matches.len();
            let mut extend = false;
            if n > 0 {
                extend = matches[n - 1].is_line_match(line.as_str(), flags.ignore_case);
            }
            if extend {
                let mut it = matches.pop().unwrap();
                proof {
                    assert(it@ == pre.last());
                    assert(it@.count <= i);
                }
                it.increment_count();
                matches.push(it);
                proof {
                    assert(matches.deep_view() =~= pre.update(
                        pre.len() - 1,
                        GroupView { line: pre.last().line, count: pre.last().count + 1 },
                    ));
                }
            } else {
                matches.push(UniqMatchItem::with_line(line.as_str()));
                proof {
                    assert(matches.deep_view() =~= pre.push(
                        GroupView { line: lv[i as int], count: 1 },
                    ));
                }
            }
            i += 1;
        }
        proof {
            assert(lv.take(lines@.len() as int) =~= lv);
        }
        let r = UniqMatcher { matches, flags };
        r
    }

    /// Renders the kept groups in order: each kept group contributes its
    /// representative line, prefixed by the right-justified count when
    /// counting is on.
    pub fn render(&self) -> (r: String)
        ensures
            r@ == rendered_groups(
                self@,
                self.spec_flags().count_occurrences,
                self.spec_flags().duplicates_only,
                self.spec_flags().unique_only,
            ),
    {
        let co = self.flags.count_occurrences;
        let dup = self.flags.duplicates_only;
        let uniq = self.flags.unique_only;
        let mut out = String::new();
        let mut i: usize = 0;
        proof {
            assert(out@ =~= rendered_groups(self@.take(0), co, dup, uniq));
        }
        while i < self.matches.len()
            invariant
                i <= self.matches@.len(),
                self@ == self.matches.deep_view(),
                co == self.spec_flags().count_occurrences,
                dup == self.spec_flags().duplicates_only,
                uniq == self.spec_flags().unique_only,
                out@ == rendered_groups(self@.take(i as int), co, dup, uniq),
            decreases self.matches@.len() - i,
        {
            let it = &self.matches[i];
            let shown = if dup {
                it.is_duplicate()
            } else if uniq {
                it.is_unique()
            } else {
                true
            };
            proof {
                assert(shown == group_shown(self@[i as int], dup, uniq));
            }
            if shown {
                if co {
                    let digits = fmt_u64(it.count);
                    let padded = pad_left(digits.as_str(), 5);
                    out.append(padded.as_str());
                    out.append(" ");
                    out.append(it.line.as_str());
                    proof {
                        reveal_strlit(" ");
                        assert(" "@ =~= seq![' ']);
                        assert(out@ =~= rendered_groups(self@.take(i as int), co, dup, uniq)
                            + group_text(self@[i as int], co));
                    }
                } else {
                    out.append(it.line.as_str());
                }
            }
            proof {
                assert(self@.take(i + 1).drop_last() =~= self@.take(i as int));
                assert(self@.take(i + 1).last() == self@[i as int]);
                assert(out@ =~= rendered_groups(self@.take(i + 1), co, dup, uniq));
            }
            i += 1;
        }
        proof {
            assert(self@.take(self.matches@.len() as int) =~= self@);
        }
        out
    }
}

/// Whether the configured filter keeps a group: only repeated groups under
/// duplicates-only, only singletons under unique-only, all otherwise.
pub open spec fn group_shown(g: GroupView, duplicates_only: bool, unique_only: bool) -> bool {
    if duplicates_only {
        g.count > 1
    } else if unique_only {
        g.count == 1
    } else {
        true
    }
}

/// The text one kept group contributes: its representative line verbatim,
/// prefixed by the count right-justified in a five-character field when
/// counting is on.
pub open spec fn group_text(g: GroupView, count_occurrences: bool) -> Seq<char> {
    if count_occurrences {
        right_justified(dec_digits(g.count), 5) + seq![' '] + g.line
    } else {
        g.line
    }
}

/// The rendered output: what each kept group contributes, concatenated in
/// group order.
pub open spec fn rendered_groups(
    gs: Seq<GroupView>,
    count_occurrences: bool,
    duplicates_only: bool,
    unique_only: bool,
) -> Seq<char>
    decreases gs.len(),
{
    if gs.len() == 0 {
        Seq::empty()
    } else {
        rendered_groups(gs.drop_last(), count_occurrences, duplicates_only, unique_only) + (
        if group_shown(gs.last(), duplicates_only, unique_only) {
            group_text(gs.last(), count_occurrences)
        } else {
            Seq::empty()
        })
    }
}

/// The groups a filter keeps, in order.
pub open spec fn kept_groups(
    gs: Seq<GroupView>,
    duplicates_only: bool,
    unique_only: bool,
) -> Seq<GroupView>
    decreases gs.len(),
{
    if gs.len() == 0 {
        Seq::empty()
    } else {
        kept_groups(gs.drop_last(), duplicates_only, unique_only) + (if group_shown(
            gs.last(),
            duplicates_only,
            unique_only,
        ) {
            seq![gs.last()]
        } else {
            Seq::empty()
        })
    }
}

/// Filtering happens before rendering and nowhere else: the rendered output
/// under a filter equals the unfiltered rendering of exactly the kept
/// groups.
pub proof fn lemma_render_kept(
    gs: Seq<GroupView>,
    count_occurrences: bool,
    duplicates_only: bool,
    unique_only: bool,
)
    ensures
        rendered_groups(gs, count_occurrences, duplicates_only, unique_only) == rendered_groups(
            kept_groups(gs, duplicates_only, unique_only),
            count_occurrences,
            false,
            false,
        ),
    decreases gs.len(),
{
    if gs.len() > 0 {
        lemma_render_kept(gs.drop_last(), count_occurrences, duplicates_only, unique_only);
        let kd = kept_groups(gs.drop_last(), duplicates_only, unique_only);
        if group_shown(gs.last(), duplicates_only, unique_only) {
            assert(kept_groups(gs, duplicates_only, unique_only) =~= kd.push(gs.last()));
            assert(kd.push(gs.last()).drop_last() =~= kd);
        } else {
            assert(kept_groups(gs, duplicates_only, unique_only) =~= kd);
        }
    }
}

/// The unique-only and duplicates-only filters partition the group list:
/// with no filter every group is kept, and each group (its count being at
/// least one) is kept by exactly one of the two filters — unique-only iff
/// its count is one, duplicates-only iff its count exceeds one.
pub proof fn lemma_filters_partition(gs: Seq<GroupView>)
    requires
        forall|j: int| 0 <= j < gs.len() ==> (#[trigger] gs[j]).count >= 1,
    ensures
        kept_groups(gs, false, false) == gs,
        gs.to_multiset() == kept_groups(gs, false, true).to_multiset().add(
            kept_groups(gs, true, false).to_multiset(),
        ),
        forall|j: int|
            0 <= j < gs.len() ==> (group_shown(#[trigger] gs[j], false, true) <==> gs[j].count
                == 1),
        forall|j: int|
            0 <= j < gs.len() ==> (group_shown(#[trigger] gs[j], true, false) <==> gs[j].count > 1),
        forall|j: int| 0 <= j < gs.len() ==> group_shown(#[trigger] gs[j], false, false),
        forall|j: int|
            0 <= j < gs.len() ==> (group_shown(#[trigger] gs[j], false, true) <==> !group_shown(
                gs[j],
                true,
                false,
            )),
    decreases gs.len(),
{
    broadcast use vstd::seq_lib::group_to_multiset_ensures;

    if gs.len() == 0 {
        assert(kept_groups(gs, false, false) =~= gs);
        assert(gs.to_multiset() =~= kept_groups(gs, false, true).to_multiset().add(
            kept_groups(gs, true, false).to_multiset(),
        ));
    } else {
        let dl = gs.drop_last();
        lemma_filters_partition(dl);
        let last = gs.last();
        assert(kept_groups(gs, false, false) =~= dl + seq![last]);
        assert(dl + seq![last] =~= gs);
        let u = kept_groups(gs, false, true);
        let d = kept_groups(gs, true, false);
        let udl = kept_groups(dl, false, true);
        let ddl = kept_groups(dl, true, false);
        assert(gs =~= dl.push(last));
        assert(gs.to_multiset() == dl.to_multiset().insert(last));
        if last.count == 1 {
            assert(u =~= udl.push(last));
            assert(d =~= ddl);
            assert(u.to_multiset() == udl.to_multiset().insert(last));
            assert(gs.to_multiset() =~= u.to_multiset().add(d.to_multiset()));
        } else {
            assert(u =~= udl);
            assert(d =~= ddl.push(last));
            assert(d.to_multiset() == ddl.to_multiset().insert(last));
            assert(gs.to_multiset() =~= u.to_multiset().add(d.to_multiset()));
        }
    }
}

/// A group list exploded back to its lines: each group contributes its
/// representative line, repeated count times.
pub open spec fn repeat_line(l: Seq<char>, n: nat) -> Seq<Seq<char>> {
    Seq::new(n, |j: int| l)
}

/// The expansion of grouped output: every group's representative, repeated
/// as often as it was counted, in group order.
pub open spec fn expanded(gs: Seq<GroupView>) -> Seq<Seq<char>>
    decreases gs.len(),
{
    if gs.len() == 0 {
        Seq::empty()
    } else {
        expanded(gs.drop_last()) + repeat_line(gs.last().line, gs.last().count)
    }
}

proof fn lemma_extend_run(xs: Seq<Seq<char>>, l: Seq<char>, k: nat, ignore_case: bool)
    requires
        groups_of(xs, ignore_case).len() > 0,
        groups_of(xs, ignore_case).last().line == l,
    ensures
        groups_of(xs + repeat_line(l, k), ignore_case) == groups_of(xs, ignore_case).update(
            groups_of(xs, ignore_case).len() - 1,
            GroupView { line: l, count: groups_of(xs, ignore_case).last().count + k },
        ),
    decreases k,
{
    let gs = groups_of(xs, ignore_case);
    if k == 0 {
        assert(xs + repeat_line(l, 0) =~= xs);
        assert(gs.update(gs.len() - 1, GroupView { line: l, count: gs.last().count + 0 }) =~= gs);
    } else {
        lemma_extend_run(xs, l, (k - 1) as nat, ignore_case);
        let prev = xs + repeat_line(l, (k - 1) as nat);
        let gp = groups_of(prev, ignore_case);
        assert(xs + repeat_line(l, k) =~= prev.push(l));
        assert(prev.push(l).drop_last() =~= prev);
        assert(prev.push(l).last() == l);
        assert(gp.last().line == l);
        assert(lines_match(gp.last().line, l, ignore_case));
        assert(groups_of(prev.push(l), ignore_case) == gp.update(
            gp.len() - 1,
            GroupView { line: gp.last().line, count: gp.last().count + 1 },
        ));
        assert(groups_of(xs + repeat_line(l, k), ignore_case) =~= gs.update(
            gs.len() - 1,
            GroupView { line: l, count: gs.last().count + k },
        ));
    }
}

proof fn lemma_regroup_wf(gs: Seq<GroupView>, ignore_case: bool)
    requires
        forall|j: int| 0 <= j < gs.len() ==> (#[trigger] gs[j]).count >= 1,
        forall|j: int|
            0 <= j < gs.len() - 1 ==> !lines_match(
                (#[trigger] gs[j]).line,
                gs[j + 1].line,
                ignore_case,
            ),
    ensures
        groups_of(expanded(gs), ignore_case) == gs,
    decreases gs.len(),
{
    if gs.len() == 0 {
        assert(expanded(gs) =~= Seq::<Seq<char>>::empty());
        assert(groups_of(expanded(gs), ignore_case) =~= gs);
    } else {
        let dl = gs.drop_last();
        lemma_regroup_wf(dl, ignore_case);
        let l = gs.last().line;
        let c = gs.last().count;
        assert(repeat_line(l, c) =~= seq![l] + repeat_line(l, (c - 1) as nat));
        assert(expanded(gs) =~= (expanded(dl).push(l)) + repeat_line(l, (c - 1) as nat));
        let first = expanded(dl).push(l);
        assert(first.drop_last() =~= expanded(dl));
        assert(first.last() == l);
        if dl.len() > 0 {
            assert(!lines_match(dl.last().line, l, ignore_case)) by {
                assert(dl.last() == gs[gs.len() - 2]);
            }
            assert(groups_of(first, ignore_case) == dl.push(GroupView { line: l, count: 1 }));
        } else {
            assert(groups_of(expanded(dl), ignore_case).len() == 0);
            assert(groups_of(first, ignore_case) == dl.push(GroupView { line: l, count: 1 }));
        }
        lemma_extend_run(first, l, (c - 1) as nat, ignore_case);
        let pushed = dl.push(GroupView { line: l, count: 1 });
        assert(groups_of(expanded(gs), ignore_case) == pushed.update(
            pushed.len() - 1,
            GroupView { line: l, count: (1 + (c - 1) as nat) as nat },
        ));
        assert(pushed.update(pushed.len() - 1, GroupView { line: l, count: c }) =~= gs);
    }
}

/// Grouping is idempotent on already-grouped output: regrouping the
/// expanded form of the groups of any line sequence yields those same
/// groups.
pub proof fn lemma_regroup_idempotent(ls: Seq<Seq<char>>, ignore_case: bool)
    ensures
        groups_of(expanded(groups_of(ls, ignore_case)), ignore_case) == groups_of(ls, ignore_case),
{
    lemma_groups_wf(ls, ignore_case);
    lemma_regroup_wf(groups_of(ls, ignore_case), ignore_case);
}

} // verus!
