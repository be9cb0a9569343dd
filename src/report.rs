//! The records of a campaign's test executions and their summary per test.

use vstd::prelude::*;
use itertools::Itertools;

use crate::system_call::string_views;

verus! {

broadcast use vstd::seq_lib::group_to_multiset_ensures;

/// The measures of one test execution. Energy is counted in microjoules,
/// transfer and storage in bytes.
pub struct TestReport {
    pub name: String,
    pub energy: u64,
    pub transfer: u64,
    pub storage: u64,
}

impl TestReport {
    /// A record for the test `name`, with every measure at zero.
    pub fn new(name: &str) -> (r: Self)
        ensures
            r.name@ == name@,
            r.energy == 0,
            r.transfer == 0,
            r.storage == 0,
    {
        TestReport { name: name.to_string(), energy: 0, transfer: 0, storage: 0 }
    }
}

/// A record as plain values: name, energy, transfer, storage.
pub open spec fn record_view(r: TestReport) -> (Seq<char>, u64, u64, u64) {
    (r.name@, r.energy, r.transfer, r.storage)
}

pub open spec fn records_view(s: Seq<TestReport>) -> Seq<(Seq<char>, u64, u64, u64)> {
    s.map_values(|r: TestReport| record_view(r))
}

/// Lexicographic order on strings, character by character: the order of
/// `String`'s `Ord`, since UTF-8 keeps the order of code points.
pub open spec fn lex_le(a: Seq<char>, b: Seq<char>) -> bool
    decreases a.len(),
{
    if a.len() == 0 {
        true
    } else if b.len() == 0 {
        false
    } else if a[0] != b[0] {
        (a[0] as u32) < (b[0] as u32)
    } else {
        lex_le(a.drop_first(), b.drop_first())
    }
}

pub open spec fn lex_lt(a: Seq<char>, b: Seq<char>) -> bool {
    lex_le(a, b) && a != b
}

/// The records of `d` whose test is named `n`, in order.
pub open spec fn named(d: Seq<TestReport>, n: Seq<char>) -> Seq<TestReport>
    decreases d.len(),
{
    if d.len() == 0 {
        Seq::empty()
    } else if d.last().name@ == n {
        named(d.drop_last(), n).push(d.last())
    } else {
        named(d.drop_last(), n)
    }
}

/// The sums of energy, transfer and storage over `s`.
pub open spec fn sums(s: Seq<TestReport>) -> (nat, nat, nat)
    decreases s.len(),
{
    if s.len() == 0 {
        (0, 0, 0)
    } else {
        let p = sums(s.drop_last());
        (
            p.0 + s.last().energy as nat,
            p.1 + s.last().transfer as nat,
            p.2 + s.last().storage as nat,
        )
    }
}

/// The mean of `count` values that add up to `sum`, truncated.
pub open spec fn mean(sum: nat, count: nat) -> nat {
    if count == 0 {
        0
    } else {
        sum / count
    }
}

/// `r` holds the means of the records `g`.
pub open spec fn holds_means(r: TestReport, g: Seq<TestReport>) -> bool {
    &&& r.energy as nat == mean(sums(g).0, g.len())
    &&& r.transfer as nat == mean(sums(g).1, g.len())
    &&& r.storage as nat == mean(sums(g).2, g.len())
}

/// Some record of `d` is named `x`.
pub open spec fn has_name(d: Seq<TestReport>, x: Seq<char>) -> bool {
    exists|k: int| 0 <= k < d.len() && #[trigger] d[k].name@ == x
}

/// `t` is the summary of `d`: one record per distinct test name of `d`, in
/// increasing lexicographic order of names, each holding the means of the
/// records of `d` with that name.
#[verifier::opaque]
pub open spec fn is_total_of(t: Seq<TestReport>, d: Seq<TestReport>) -> bool {
    &&& forall|p: int| 0 <= p < t.len() ==> has_name(d, #[trigger] t[p].name@)
    &&& forall|k: int| 0 <= k < d.len() ==> has_name(t, #[trigger] d[k].name@)
    &&& forall|p: int, q: int|
        0 <= p < q < t.len() ==> lex_lt(#[trigger] t[p].name@, #[trigger] t[q].name@)
    &&& forall|p: int| 0 <= p < t.len() ==> holds_means(#[trigger] t[p], named(d, t[p].name@))
}

pub proof fn lemma_lex_antisymmetric(a: Seq<char>, b: Seq<char>)
    requires
        lex_le(a, b),
        lex_le(b, a),
    ensures
        a == b,
    decreases a.len(),
{
    if a.len() > 0 && b.len() > 0 {
        lemma_lex_antisymmetric(a.drop_first(), b.drop_first());
        assert(a =~= seq![a[0]] + a.drop_first());
        assert(b =~= seq![b[0]] + b.drop_first());
    } else {
        assert(a =~= b);
    }
}

pub open spec fn strictly_sorted(s: Seq<Seq<char>>) -> bool {
    forall|p: int, q: int| 0 <= p < q < s.len() ==> lex_lt(#[trigger] s[p], #[trigger] s[q])
}

/// Two strictly sorted sequences with the same elements are equal.
proof fn lemma_sorted_unique(a: Seq<Seq<char>>, b: Seq<Seq<char>>)
    requires
        strictly_sorted(a),
        strictly_sorted(b),
        forall|x: Seq<char>| a.contains(x) <==> b.contains(x),
    ensures
        a == b,
    decreases a.len(),
{
    if a.len() == 0 {
        if b.len() > 0 {
            assert(b.contains(b[0]));
        }
        assert(a =~= b);
    } else {
        assert(a.contains(a[0]));
        assert(b.len() > 0);
        assert(b.contains(b[0]));
        let j = choose|j: int| 0 <= j < b.len() && b[j] == a[0];
        let i = choose|i: int| 0 <= i < a.len() && a[i] == b[0];
        if j > 0 {
            assert(lex_lt(b[0], b[j]));
            if i > 0 {
                assert(lex_lt(a[0], a[i]));
                lemma_lex_antisymmetric(a[0], a[i]);
            }
            assert(false);
        }
        let a1 = a.drop_first();
        let b1 = b.drop_first();
        assert forall|x: Seq<char>| a1.contains(x) implies b1.contains(x) by {
            let k = choose|k: int| 0 <= k < a1.len() && a1[k] == x;
            assert(lex_lt(a[0], a[k + 1]));
            assert(b.contains(x));
            let m = choose|m: int| 0 <= m < b.len() && b[m] == x;
            assert(m != 0);
            assert(b1[m - 1] == x);
        }
        assert forall|x: Seq<char>| b1.contains(x) implies a1.contains(x) by {
            let k = choose|k: int| 0 <= k < b1.len() && b1[k] == x;
            assert(lex_lt(b[0], b[k + 1]));
            assert(a.contains(x));
            let m = choose|m: int| 0 <= m < a.len() && a[m] == x;
            assert(m != 0);
            assert(a1[m - 1] == x);
        }
        assert(strictly_sorted(a1)) by {
            assert forall|p: int, q: int| 0 <= p < q < a1.len() implies lex_lt(
                #[trigger] a1[p],
                #[trigger] a1[q],
            ) by {
                assert(lex_lt(a[p + 1], a[q + 1]));
            }
        }
        assert(strictly_sorted(b1)) by {
            assert forall|p: int, q: int| 0 <= p < q < b1.len() implies lex_lt(
                #[trigger] b1[p],
                #[trigger] b1[q],
            ) by {
                assert(lex_lt(b[p + 1], b[q + 1]));
            }
        }
        lemma_sorted_unique(a1, b1);
        assert(a =~= seq![a[0]] + a1);
        assert(b =~= seq![b[0]] + b1);
    }
}

pub open spec fn total_names(t: Seq<TestReport>) -> Seq<Seq<char>> {
    t.map_values(|r: TestReport| r.name@)
}

proof fn lemma_total_names(t: Seq<TestReport>, d: Seq<TestReport>)
    requires
        is_total_of(t, d),
    ensures
        strictly_sorted(total_names(t)),
        forall|x: Seq<char>| #[trigger] total_names(t).contains(x) <==> has_name(d, x),
        forall|p: int| 0 <= p < t.len() ==> holds_means(#[trigger] t[p], named(d, t[p].name@)),
{
    reveal(is_total_of);
    let n = total_names(t);
    assert forall|p: int, q: int| 0 <= p < q < n.len() implies lex_lt(
        #[trigger] n[p],
        #[trigger] n[q],
    ) by {
        assert(lex_lt(t[p].name@, t[q].name@));
    }
    assert forall|x: Seq<char>| #[trigger] n.contains(x) implies has_name(d, x) by {
        let p = choose|p: int| 0 <= p < n.len() && n[p] == x;
        assert(t[p].name@ == x);
    }
    assert forall|x: Seq<char>| has_name(d, x) implies #[trigger] n.contains(x) by {
        let k = choose|k: int| 0 <= k < d.len() && #[trigger] d[k].name@ == x;
        assert(has_name(t, d[k].name@));
        let q = choose|q: int| 0 <= q < t.len() && #[trigger] t[q].name@ == d[k].name@;
        assert(n[q] == x);
    }
}

/// The summary is a function of the records alone: two summaries of the same
/// records agree, so computing the totals again on unchanged details gives
/// the same totals.
pub proof fn law_total_idempotent(d: Seq<TestReport>, t1: Seq<TestReport>, t2: Seq<TestReport>)
    requires
        is_total_of(t1, d),
        is_total_of(t2, d),
    ensures
        records_view(t1) == records_view(t2),
{
    let n1 = total_names(t1);
    let n2 = total_names(t2);
    lemma_total_names(t1, d);
    lemma_total_names(t2, d);
    assert forall|x: Seq<char>| n1.contains(x) <==> n2.contains(x) by {
        assert(n1.contains(x) <==> has_name(d, x));
        assert(n2.contains(x) <==> has_name(d, x));
    }
    lemma_sorted_unique(n1, n2);
    assert(t1.len() == t2.len()) by {
        assert(n1.len() == n2.len());
    }
    assert forall|p: int| 0 <= p < t1.len() implies #[trigger] records_view(t1)[p]
        == records_view(t2)[p] by {
        assert(n1[p] == n2[p]);
        assert(holds_means(t1[p], named(d, t1[p].name@)));
        assert(holds_means(t2[p], named(d, t2[p].name@)));
        assert(t1[p].name@ == t2[p].name@);
    }
    assert(records_view(t1) =~= records_view(t2));
}

proof fn lemma_named_nonempty(d: Seq<TestReport>, n: Seq<char>, k: int)
    requires
        0 <= k < d.len(),
        d[k].name@ == n,
    ensures
        named(d, n).len() > 0,
    decreases d.len(),
{
    if k < d.len() - 1 {
        lemma_named_nonempty(d.drop_last(), n, k);
    }
}

/// What the summary loop of `compute_total` leaves, read as a summary.
proof fn lemma_total_built(d: Seq<TestReport>, sv: Seq<Seq<char>>, t: Seq<TestReport>, idx: Seq<int>)
    requires
        forall|x: Seq<char>| sv.contains(x) <==> has_name(d, x),
        forall|a: int, b: int| 0 <= a < b < sv.len() ==> lex_le(#[trigger] sv[a], #[trigger] sv[b]),
        idx.len() == t.len(),
        forall|p: int| 0 <= p < idx.len() ==> 0 <= #[trigger] idx[p] < sv.len(),
        forall|p: int, q: int| 0 <= p < q < idx.len() ==> #[trigger] idx[p] < #[trigger] idx[q],
        forall|p: int| 0 <= p < idx.len() ==> #[trigger] t[p].name@ == sv[idx[p]],
        forall|p: int, q: int| 0 <= p < q < t.len() ==> #[trigger] t[p].name@ != #[trigger] t[q].name@,
        forall|k: int| 0 <= k < sv.len() ==> has_name(t, #[trigger] sv[k]),
        forall|p: int| 0 <= p < t.len() ==> holds_means(#[trigger] t[p], named(d, t[p].name@)),
    ensures
        is_total_of(t, d),
{
    reveal(is_total_of);
    assert forall|p: int| 0 <= p < t.len() implies has_name(d, #[trigger] t[p].name@) by {
        assert(sv.contains(sv[idx[p]]));
    }
    assert forall|k: int| 0 <= k < d.len() implies has_name(t, #[trigger] d[k].name@) by {
        assert(has_name(d, d[k].name@));
        let m = choose|m: int| 0 <= m < sv.len() && sv[m] == d[k].name@;
        assert(has_name(t, sv[m]));
    }
    assert forall|p: int, q: int| 0 <= p < q < t.len() implies lex_lt(
        #[trigger] t[p].name@,
        #[trigger] t[q].name@,
    ) by {
        assert(idx[p] < idx[q]);
        assert(lex_le(sv[idx[p]], sv[idx[q]]));
    }
}

/// Relies on itertools' `Itertools::sorted`: the same strings, put in
/// ascending order of `String`'s `Ord`.
#[verifier::external_body]
fn sorted_names(names: Vec<String>) -> (r: Vec<String>)
    ensures
        string_views(r@).to_multiset() == string_views(names@).to_multiset(),
        forall|i: int, j: int|
            0 <= i < j < r@.len() ==> lex_le(#[trigger] r@[i]@, #[trigger] r@[j]@),
{
    names.into_iter().sorted().collect()
}

/// Whether a record of `t` carries the name `n`.
fn contains_name(t: &Vec<TestReport>, n: &String) -> (r: bool)
    ensures
        r == exists|p: int| 0 <= p < t@.len() && #[trigger] t@[p].name@ == n@,
{
    let mut i: usize = 0;
    while i < t.len()
        invariant
            i <= t@.len(),
            forall|p: int| 0 <= p < i ==> #[trigger] t@[p].name@ != n@,
        decreases t.len() - i,
    {
        if t[i].name == *n {
            return true;
        }
        i = i + 1;
    }
    false
}

/// The records of every test execution of a campaign, and their summary per
/// test.
pub struct Report {
    details: Vec<TestReport>,
    total: Vec<TestReport>,
}

impl Report {
    /// One record per test execution, in the order of execution.
    pub closed spec fn spec_details(&self) -> Seq<TestReport> {
        self.details@
    }

    /// The summary, as the last `compute_total` left it.
    pub closed spec fn spec_total(&self) -> Seq<TestReport> {
        self.total@
    }

    pub fn new() -> (r: Self)
        ensures
            r.spec_details() == Seq::<TestReport>::empty(),
            r.spec_total() == Seq::<TestReport>::empty(),
    {
        Report { details: Vec::new(), total: Vec::new() }
    }

    pub fn details(&self) -> (r: &Vec<TestReport>)
        ensures
            r@ == self.spec_details(),
    {
        &self.details
    }

    pub fn total(&self) -> (r: &Vec<TestReport>)
        ensures
            r@ == self.spec_total(),
    {
        &self.total
    }

    /// Appends the record of one execution, whatever its name.
    pub fn add_test_report(&mut self, ir: TestReport)
        ensures
            final(self).spec_details() == old(self).spec_details().push(ir),
            final(self).spec_total() == old(self).spec_total(),
    {
        self.details.push(ir);
    }

    /// The record of the means over the executions of the test named `n`.
    fn group_of(&self, n: &String) -> (r: TestReport)
        requires
            has_name(self.details@, n@),
        ensures
            r.name@ == n@,
            holds_means(r, named(self.details@, n@)),
    {
        let ghost d = self.details@;
        let mut count: usize = 0;
        let mut se: u128 = 0;
        let mut st: u128 = 0;
        let mut ss: u128 = 0;
        let mut i: usize = 0;
        while i < self.details.len()
            invariant
                d == self.details@,
                i <= d.len(),
                count <= i,
                count as nat == named(d.subrange(0, i as int), n@).len(),
                se as nat == sums(named(d.subrange(0, i as int), n@)).0,
                st as nat == sums(named(d.subrange(0, i as int), n@)).1,
                ss as nat == sums(named(d.subrange(0, i as int), n@)).2,
                se <= count * (u64::MAX as nat),
                st <= count * (u64::MAX as nat),
                ss <= count * (u64::MAX as nat),
            decreases d.len() - i,
        {
            let ghost next = d.subrange(0, i + 1);
            assert(next.drop_last() =~= d.subrange(0, i as int));
            assert(next.last() == d[i as int]);
            let r = &self.details[i];
            if r.name == *n {
                assert(named(next, n@).drop_last() =~= named(d.subrange(0, i as int), n@));
                assert(named(next, n@).last() == d[i as int]);
                assert((count + 1) * (u64::MAX as nat) == count * (u64::MAX as nat) + u64::MAX)
                    by (nonlinear_arith);
                assert(count * (u64::MAX as nat) + u64::MAX <= (usize::MAX as nat + 1) * (
                u64::MAX as nat)) by (nonlinear_arith)
                    requires
                        count <= usize::MAX,
                ;
                se = se + r.energy as u128;
                st = st + r.transfer as u128;
                ss = ss + r.storage as u128;
                count = count + 1;
            }
            i = i + 1;
        }
        assert(d.subrange(0, d.len() as int) =~= d);
        proof {
            let k = choose|k: int| 0 <= k < d.len() && #[trigger] d[k].name@ == n@;
            lemma_named_nonempty(d, n@, k);
        }
        let c = count as u128;
        assert(se / c <= u64::MAX) by (nonlinear_arith)
            requires
                se <= c * (u64::MAX as nat),
                c > 0,
        ;
        assert(st / c <= u64::MAX) by (nonlinear_arith)
            requires
                st <= c * (u64::MAX as nat),
                c > 0,
        ;
        assert(ss / c <= u64::MAX) by (nonlinear_arith)
            requires
                ss <= c * (u64::MAX as nat),
                c > 0,
        ;
        TestReport {
            name: n.clone(),
            energy: (se / c) as u64,
            transfer: (st / c) as u64,
            storage: (ss / c) as u64,
        }
    }

    /// Summarises the details: one record per distinct test name, in
    /// increasing lexicographic order of names, holding the truncated means
    /// of energy, transfer and storage over that test's executions. The
    /// details are left as they are.
    #[verifier::rlimit(60)]
    pub fn compute_total(&mut self)
        ensures
            final(self).spec_details() == old(self).spec_details(),
            is_total_of(final(self).spec_total(), old(self).spec_details()),
    {
        let ghost d = self.details@;
        let mut names: Vec<String> = Vec::new();
        let mut i: usize = 0;
        while i < self.details.len()
            invariant
                d == self.details@,
                i <= d.len(),
                names@.len() == i,
                string_views(names@) =~= total_names(d).subrange(0, i as int),
            decreases d.len() - i,
        {
            let n = self.details[i].name.clone();
            names.push(n);
            assert(string_views(names@)[i as int] == total_names(d)[i as int]);
            i = i + 1;
        }
        assert(string_views(names@) =~= total_names(d));
        let sorted = sorted_names(names);
        let ghost sv = string_views(sorted@);
        assert forall|a: int, b: int| 0 <= a < b < sv.len() implies lex_le(
            #[trigger] sv[a],
            #[trigger] sv[b],
        ) by {
            assert(lex_le(sorted@[a]@, sorted@[b]@));
        }
        assert forall|x: Seq<char>| sv.contains(x) <==> has_name(d, x) by {
            assert(sv.contains(x) <==> sv.to_multiset().count(x) > 0);
            assert(total_names(d).contains(x) <==> total_names(d).to_multiset().count(x) > 0);
            if has_name(d, x) {
                let k = choose|k: int| 0 <= k < d.len() && #[trigger] d[k].name@ == x;
                assert(total_names(d)[k] == x);
            }
            if total_names(d).contains(x) {
                let k = choose|k: int| 0 <= k < d.len() && total_names(d)[k] == x;
                assert(d[k].name@ == x);
            }
        }
        let mut total: Vec<TestReport> = Vec::new();
        let ghost mut idx: Seq<int> = Seq::empty();
        let mut j: usize = 0;
        while j < sorted.len()
            invariant
                d == self.details@,
                sv == string_views(sorted@),
                forall|x: Seq<char>| sv.contains(x) <==> has_name(d, x),
                forall|a: int, b: int|
                    0 <= a < b < sv.len() ==> lex_le(#[trigger] sv[a], #[trigger] sv[b]),
                j <= sorted@.len(),
                idx.len() == total@.len(),
                forall|p: int| 0 <= p < idx.len() ==> 0 <= #[trigger] idx[p] < j,
                sv.len() == sorted@.len(),
                forall|p: int, q: int| 0 <= p < q < idx.len() ==> #[trigger] idx[p] < #[trigger] idx[q],
                forall|p: int| 0 <= p < idx.len() ==> #[trigger] total@[p].name@ == sv[idx[p]],
                forall|p: int, q: int|
                    0 <= p < q < total@.len() ==> #[trigger] total@[p].name@ != #[trigger] total@[q].name@,
                forall|k: int| 0 <= k < j ==> has_name(total@, #[trigger] sv[k]),
                forall|p: int|
                    0 <= p < total@.len() ==> holds_means(#[trigger] total@[p], named(d, total@[p].name@)),
            decreases sorted@.len() - j,
        {
            assert(sv[j as int] == sorted@[j as int]@);
            if !contains_name(&total, &sorted[j]) {
                assert(sv.contains(sv[j as int]));
                let r = self.group_of(&sorted[j]);
                let ghost old_total = total@;
                total.push(r);
                proof {
                    idx = idx.push(j as int);
                }
                assert(total@[old_total.len() as int] == r);
                assert forall|k: int| 0 <= k < j + 1 implies has_name(total@, #[trigger] sv[k]) by {
                    if k < j {
                        let p = choose|p: int|
                            0 <= p < old_total.len() && #[trigger] old_total[p].name@ == sv[k];
                        assert(total@[p] == old_total[p]);
                    } else {
                        assert(total@[old_total.len() as int].name@ == sv[k]);
                    }
                }
            } else {
                assert(has_name(total@, sv[j as int]));
            }
            j = j + 1;
        }
        self.total = total;
        proof {
            assert(j == sv.len());
            lemma_total_built(d, sv, self.total@, idx);
        }
    }
}

} // verus!
