//! The ordered, mutable collection of problems found by one run, with
//! identity-based compaction and aggregate text rendering.

use crate::error::Error;
use crate::problem::Problem;
use vstd::prelude::*;

verus! {

/// Collection of problems found in the database.
pub struct Report {
    problems: Vec<Problem>,
}

impl View for Report {
    type V = Seq<Problem>;

    closed spec fn view(&self) -> Seq<Problem> {
        self.problems@
    }
}

impl Default for Report {
    /// The empty report.
    fn default() -> (r: Self)
        ensures
            r@ == Seq::<Problem>::empty(),
    {
        Report { problems: Vec::new() }
    }
}

/// The newline-joined messages of the problems, in order.  Empty messages
/// are skipped, so a separating newline is written only between two
/// non-empty texts.
pub open spec fn messages_text(s: Seq<Problem>, acc: Seq<char>) -> Seq<char>
    decreases s.len(),
{
    if s.len() == 0 {
        acc
    } else {
        let m = s.first().message@;
        messages_text(
            s.drop_first(),
            if m.len() == 0 {
                acc
            } else if acc.len() == 0 {
                m
            } else {
                acc + seq!['\n'] + m
            },
        )
    }
}

/// The newline-joined migration texts: problems without a migration, and
/// migrations whose text is empty, are skipped.
pub open spec fn migrations_text(s: Seq<Problem>, acc: Seq<char>) -> Seq<char>
    decreases s.len(),
{
    if s.len() == 0 {
        acc
    } else {
        let p = s.first();
        migrations_text(
            s.drop_first(),
            match p.migration {
                None => acc,
                Some(m) => if m@.len() == 0 {
                    acc
                } else if acc.len() == 0 {
                    m@
                } else {
                    acc + seq!['\n'] + m@
                },
            },
        )
    }
}

/// The newline-joined rollback texts: a problem contributes only when it
/// has both a migration and a rollback, and its rollback text is non-empty.
pub open spec fn rollbacks_text(s: Seq<Problem>, acc: Seq<char>) -> Seq<char>
    decreases s.len(),
{
    if s.len() == 0 {
        acc
    } else {
        let p = s.first();
        rollbacks_text(
            s.drop_first(),
            if p.migration is Some && p.rollback is Some && p.rollback->0@.len() > 0 {
                if acc.len() == 0 {
                    p.rollback->0@
                } else {
                    acc + seq!['\n'] + p.rollback->0@
                }
            } else {
                acc
            },
        )
    }
}

/// How many of the problems carry a migration.
pub open spec fn migration_count(s: Seq<Problem>) -> int
    decreases s.len(),
{
    if s.len() == 0 {
        0
    } else {
        (if s.first().migration is Some {
            1int
        } else {
            0int
        }) + migration_count(s.drop_first())
    }
}

impl Report {
    /// Append a problem; nothing is deduplicated at insertion time.
    pub fn insert(&mut self, problem: Problem)
        ensures
            final(self)@ == old(self)@.push(problem),
    {
        self.problems.push(problem);
    }

    /// An iterator over the problems, in insertion order.
    pub fn iter(&self) -> (r: Iter<'_>)
        ensures
            r.report@ == self@,
            r.index == 0,
    {
        Iter { report: self, index: 0 }
    }

    /// How many problems the report holds.
    pub fn count(&self) -> (r: usize)
        ensures
            r == self@.len(),
    {
        self.problems.len()
    }

    /// Whether the report holds no problem at all.
    pub fn is_empty(&self) -> (r: bool)
        ensures
            r == (self@.len() == 0),
    {
        self.problems.len() == 0
    }

    /// How many problems carry a migration.
    pub fn count_migrations(&self) -> (r: usize)
        ensures
            r == migration_count(self@),
    {
        let mut cnt: usize = 0;
        let n = self.problems.len();
        let mut i: usize = 0;
        proof {
            assert(self@.skip(0) =~= self@);
        }
        while i < n
            invariant
                n == self@.len(),
                i <= n,
                cnt <= i,
                cnt + migration_count(self@.skip(i as int)) == migration_count(self@),
            decreases n - i,
        {
            proof {
                assert(self@.skip(i as int).first() == self@[i as int]);
                assert(self@.skip(i as int).drop_first() =~= self@.skip(i as int + 1));
            }
            if self.problems[i].migration.is_some() {
                cnt += 1;
            }
            i += 1;
        }
        proof {
            assert(self@.skip(n as int) =~= Seq::<Problem>::empty());
        }
        cnt
    }

    /// The newline-joined messages of all problems, in order.
    pub fn message(&self) -> (r: Result<String, Error>)
        ensures
            r matches Ok(t) && t@ == messages_text(self@, Seq::<char>::empty()),
    {
        let mut out = String::new();
        let n = self.problems.len();
        let mut i: usize = 0;
        proof {
            assert(self@.skip(0) =~= self@);
        }
        while i < n
            invariant
                n == self@.len(),
                i <= n,
                messages_text(self@.skip(i as int), out@) == messages_text(
                    self@,
                    Seq::<char>::empty(),
                ),
            decreases n - i,
        {
            proof {
                reveal_strlit("\n");
                assert(("\n")@ =~= seq!['\n']);
                assert(self@.skip(i as int).first() == self@[i as int]);
                assert(self@.skip(i as int).drop_first() =~= self@.skip(i as int + 1));
            }
            if !self.problems[i].message.as_str().is_empty() {
                let ghost out0 = out@;
                if !out.as_str().is_empty() {
                    out.append("\n");
                }
                out.append(self.problems[i].message.as_str());
                proof {
                    if out0.len() != 0 {
                        assert(out@ =~= out0 + seq!['\n'] + self@[i as int].message@);
                    }
                }
            }
            i += 1;
        }
        proof {
            assert(self@.skip(n as int) =~= Seq::<Problem>::empty());
        }
        Ok(out)
    }

    /// The newline-joined migration texts; problems without one are skipped.
    pub fn migration(&self) -> (r: Result<String, Error>)
        ensures
            r matches Ok(t) && t@ == migrations_text(self@, Seq::<char>::empty()),
    {
        let mut out = String::new();
        let n = self.problems.len();
        let mut i: usize = 0;
        proof {
            assert(self@.skip(0) =~= self@);
        }
        while i < n
            invariant
                n == self@.len(),
                i <= n,
                migrations_text(self@.skip(i as int), out@) == migrations_text(
                    self@,
                    Seq::<char>::empty(),
                ),
            decreases n - i,
        {
            proof {
                reveal_strlit("\n");
                assert(("\n")@ =~= seq!['\n']);
                assert(self@.skip(i as int).first() == self@[i as int]);
                assert(self@.skip(i as int).drop_first() =~= self@.skip(i as int + 1));
            }
            match &self.problems[i].migration {
                Some(m) => {
                    if !m.as_str().is_empty() {
                        let ghost out0 = out@;
                        if !out.as_str().is_empty() {
                            out.append("\n");
                        }
                        out.append(m.as_str());
                        proof {
                            if out0.len() != 0 {
                                assert(out@ =~= out0 + seq!['\n'] + self@[i as int].migration->0@);
                            }
                        }
                    }
                },
                None => {},
            }
            i += 1;
        }
        proof {
            assert(self@.skip(n as int) =~= Seq::<Problem>::empty());
        }
        Ok(out)
    }

    /// The newline-joined rollback texts; a problem without a migration
    /// contributes nothing, even when it carries a rollback text.
    pub fn rollback(&self) -> (r: Result<String, Error>)
        ensures
            r matches Ok(t) && t@ == rollbacks_text(self@, Seq::<char>::empty()),
    {
        let mut out = String::new();
        let n = self.problems.len();
        let mut i: usize = 0;
        proof {
            assert(self@.skip(0) =~= self@);
        }
        while i < n
            invariant
                n == self@.len(),
                i <= n,
                rollbacks_text(self@.skip(i as int), out@) == rollbacks_text(
                    self@,
                    Seq::<char>::empty(),
                ),
            decreases n - i,
        {
            proof {
                reveal_strlit("\n");
                assert(("\n")@ =~= seq!['\n']);
                assert(self@.skip(i as int).first() == self@[i as int]);
                assert(self@.skip(i as int).drop_first() =~= self@.skip(i as int + 1));
            }
            let p = &self.problems[i];
            if p.migration.is_some() {
                match &p.rollback {
                    Some(rb) => {
                        if !rb.as_str().is_empty() {
                            let ghost out0 = out@;
                            if !out.as_str().is_empty() {
                                out.append("\n");
                            }
                            out.append(rb.as_str());
                            proof {
                                if out0.len() != 0 {
                                    assert(out@ =~= out0 + seq!['\n'] + self@[i as int].rollback->0@);
                                }
                            }
                        }
                    },
                    None => {},
                }
            }
            i += 1;
        }
        proof {
            assert(self@.skip(n as int) =~= Seq::<Problem>::empty());
        }
        Ok(out)
    }
}

/// Strict lexicographic order on character sequences, by code point.
pub open spec fn str_lt(a: Seq<char>, b: Seq<char>) -> bool
    decreases a.len(),
{
    if b.len() == 0 {
        false
    } else if a.len() == 0 {
        true
    } else if (a.first() as u32) < (b.first() as u32) {
        true
    } else if a.first() == b.first() {
        str_lt(a.drop_first(), b.drop_first())
    } else {
        false
    }
}

proof fn lemma_str_lt_trichotomy(a: Seq<char>, b: Seq<char>)
    ensures
        str_lt(a, b) || str_lt(b, a) || a == b,
        str_lt(a, b) ==> !str_lt(b, a) && a != b,
    decreases a.len(),
{
    if a.len() == 0 && b.len() == 0 {
        assert(a =~= b);
    } else if a.len() != 0 && b.len() != 0 {
        if a.first() == b.first() {
            lemma_str_lt_trichotomy(a.drop_first(), b.drop_first());
            if a.drop_first() == b.drop_first() {
                assert forall|i: int| 0 <= i < a.len() implies a[i] == b[i] by {
                    if i > 0 {
                        assert(a.drop_first()[i - 1] == a[i]);
                        assert(b.drop_first()[i - 1] == b[i]);
                    }
                }
                assert(a =~= b);
            }
            if a == b {
                assert(a.drop_first() =~= b.drop_first());
            }
        } else {
            assert((a.first() as u32) != (b.first() as u32)) by {
                vstd::utf8::char_u32_cast(a.first(), a.first() as u32);
                vstd::utf8::char_u32_cast(b.first(), b.first() as u32);
            }
            assert(a[0] != b[0]);
            assert(a != b);
        }
    }
}

proof fn lemma_str_lt_transitive(a: Seq<char>, b: Seq<char>, c: Seq<char>)
    requires
        str_lt(a, b),
        str_lt(b, c),
    ensures
        str_lt(a, c),
    decreases a.len(),
{
    if a.len() != 0 && b.len() != 0 && c.len() != 0 {
        if a.first() == b.first() && b.first() == c.first() {
            lemma_str_lt_transitive(a.drop_first(), b.drop_first(), c.drop_first());
        }
    }
}

/// Compare two strings in the lexicographic order used for identities.
fn str_compare_lt(a: &str, b: &str) -> (r: bool)
    ensures
        r == str_lt(a@, b@),
{
    let al = a.unicode_len();
    let bl = b.unicode_len();
    let mut i: usize = 0;
    proof {
        assert(a@.skip(0) =~= a@);
        assert(b@.skip(0) =~= b@);
    }
    while i < al && i < bl
        invariant
            al == a@.len(),
            bl == b@.len(),
            i <= al,
            i <= bl,
            str_lt(a@, b@) == str_lt(a@.skip(i as int), b@.skip(i as int)),
        decreases al - i,
    {
        proof {
            assert(a@.skip(i as int).first() == a@[i as int]);
            assert(b@.skip(i as int).first() == b@[i as int]);
            assert(a@.skip(i as int).drop_first() =~= a@.skip(i as int + 1));
            assert(b@.skip(i as int).drop_first() =~= b@.skip(i as int + 1));
        }
        let ca = a.get_char(i);
        let cb = b.get_char(i);
        if (ca as u32) < (cb as u32) {
            return true;
        }
        if ca != cb {
            return false;
        }
        i += 1;
    }
    proof {
        if i >= al {
            assert(a@.skip(i as int).len() == 0);
        } else {
            assert(b@.skip(i as int).len() == 0);
        }
    }
    i >= al && i < bl
}

/// Strictly sorted by identity: ordered, with no two identities equal.
#[verifier::opaque]
pub open spec fn sorted_by_id(s: Seq<Problem>) -> bool {
    forall|i: int, j: int|
        0 <= i < j < s.len() ==> str_lt(#[trigger] s[i].spec_id(), #[trigger] s[j].spec_id())
}

/// Every element of `s` is one of the elements of `orig`.
pub open spec fn drawn_from(s: Seq<Problem>, orig: Seq<Problem>) -> bool {
    forall|i: int| 0 <= i < s.len() ==> orig.contains(#[trigger] s[i])
}

/// Every identity among the first `m` of `orig` is represented in `s`.
pub open spec fn ids_covered(orig: Seq<Problem>, m: int, s: Seq<Problem>) -> bool {
    forall|i: int|
        0 <= i < m ==> exists|j: int|
            0 <= j < s.len() && (#[trigger] orig[i].spec_id()) == s[j].spec_id()
}

impl Report {
    /// Sort the problems by identity and remove every duplicate identity.
    ///
    /// The result is strictly sorted; each surviving problem is one of the
    /// originals; every original identity is still represented (which of
    /// several problems sharing an identity survives is not part of the
    /// contract); and a report that is already compact comes back
    /// unchanged, so compacting twice yields the same sequence as
    /// compacting once.
    pub fn compact(self) -> (r: Report)
        ensures
            sorted_by_id(r@),
            drawn_from(r@, self@),
            ids_covered(self@, self@.len() as int, r@),
            sorted_by_id(self@) ==> r@ == self@,
    {
        let ghost orig = self@;
        let mut src = self.problems;
        let total = src.len();
        let mut out: Vec<Problem> = Vec::new();
        let mut m: usize = 0;
        proof {
            assert(src@ =~= orig.skip(0));
            assert(orig.take(0) =~= Seq::<Problem>::empty());
            assert(sorted_by_id(out@)) by {
                reveal(sorted_by_id);
            }
            assert(drawn_from(out@, orig));
            assert(ids_covered(orig, 0, out@));
        }
        while src.len() > 0
            invariant
                orig.len() == total as nat,
                m + src@.len() == orig.len(),
                src@ =~= orig.skip(m as int),
                sorted_by_id(out@),
                drawn_from(out@, orig),
                ids_covered(orig, m as int, out@),
                sorted_by_id(orig) ==> out@ == orig.take(m as int),
            decreases src@.len(),
        {
            proof {
                assert(orig.skip(m as int).first() == orig[m as int]);
            }
            let p = src.remove(0);
            let ghost out_before = out@;
            proof {
                assert(src@ =~= orig.skip(m as int + 1));
            }
            place_by_id(&mut out, p);
            proof {
                lemma_step_drawn(orig, out_before, out@, p, m as int);
                lemma_step_covered(orig, out_before, out@, p, m as int);
                if sorted_by_id(orig) {
                    lemma_step_prefix(orig, out_before, out@, p, m as int);
                }
            }
            m += 1;
        }
        proof {
            assert(orig.take(orig.len() as int) =~= orig);
            assert(m as int == orig.len());
        }
        Report { problems: out }
    }
}

/// Placing a problem adds no element that was not already in the original.
proof fn lemma_step_drawn(orig: Seq<Problem>, before: Seq<Problem>, after: Seq<Problem>, p: Problem, m: int)
    requires
        0 <= m < orig.len(),
        p == orig[m],
        forall|i: int|
            0 <= i < after.len() ==> before.contains(#[trigger] after[i]) || after[i] == p,
        drawn_from(before, orig),
    ensures
        drawn_from(after, orig),
{
    assert forall|i: int| 0 <= i < after.len() implies orig.contains(#[trigger] after[i]) by {
        if before.contains(after[i]) {
            let j0 = choose|j: int| 0 <= j < before.len() && before[j] == after[i];
            assert(orig.contains(before[j0]));
        } else {
            assert(after[i] == orig[m]);
        }
    }
}

/// Placing a problem keeps every identity seen so far represented, and adds
/// the identity of the problem just placed.
proof fn lemma_step_covered(orig: Seq<Problem>, before: Seq<Problem>, after: Seq<Problem>, p: Problem, m: int)
    requires
        0 <= m < orig.len(),
        p == orig[m],
        forall|i: int|
            0 <= i < before.len() ==> exists|j: int|
                0 <= j < after.len() && (#[trigger] before[i].spec_id()) == after[j].spec_id(),
        exists|j: int| 0 <= j < after.len() && after[j].spec_id() == p.spec_id(),
        ids_covered(orig, m, before),
    ensures
        ids_covered(orig, m + 1, after),
{
    assert forall|i: int| 0 <= i < m + 1 implies exists|j: int|
        0 <= j < after.len() && (#[trigger] orig[i].spec_id()) == after[j].spec_id() by {
        if i == m {
            let j0 = choose|j: int| 0 <= j < after.len() && after[j].spec_id() == p.spec_id();
            assert(0 <= j0 < after.len() && orig[i].spec_id() == after[j0].spec_id());
        } else {
            let j0 = choose|j: int|
                0 <= j < before.len() && orig[i].spec_id() == before[j].spec_id();
            let j1 = choose|j: int|
                0 <= j < after.len() && before[j0].spec_id() == after[j].spec_id();
            assert(0 <= j1 < after.len() && orig[i].spec_id() == after[j1].spec_id());
        }
    }
}

/// On an input that is already strictly sorted, placing appends: the output
/// stays the untouched prefix of the original.
proof fn lemma_step_prefix(orig: Seq<Problem>, before: Seq<Problem>, after: Seq<Problem>, p: Problem, m: int)
    requires
        0 <= m < orig.len(),
        p == orig[m],
        sorted_by_id(orig),
        before == orig.take(m),
        (forall|i: int|
            0 <= i < before.len() ==> str_lt((#[trigger] before[i].spec_id()), p.spec_id()))
            ==> after == before.push(p),
    ensures
        after == orig.take(m + 1),
{
    reveal(sorted_by_id);
    assert forall|i: int| 0 <= i < before.len() implies str_lt(
        (#[trigger] before[i].spec_id()),
        p.spec_id(),
    ) by {
        assert(before[i] == orig[i]);
        assert(str_lt(orig[i].spec_id(), orig[m].spec_id()));
    }
    assert(after == before.push(p));
    assert(after =~= orig.take(m + 1));
}

/// Insert a problem into a strictly-sorted vector at its place in identity
/// order, or drop it when its identity is already represented.
#[verifier::rlimit(60)]
fn place_by_id(out: &mut Vec<Problem>, p: Problem)
    requires
        sorted_by_id(old(out)@),
    ensures
        sorted_by_id(final(out)@),
        forall|i: int|
            0 <= i < final(out)@.len() ==> old(out)@.contains(#[trigger] final(out)@[i])
                || final(out)@[i] == p,
        forall|i: int|
            0 <= i < old(out)@.len() ==> exists|j: int|
                0 <= j < final(out)@.len() && (#[trigger] old(out)@[i].spec_id())
                    == final(out)@[j].spec_id(),
        exists|j: int| 0 <= j < final(out)@.len() && final(out)@[j].spec_id() == p.spec_id(),
        (forall|i: int|
            0 <= i < old(out)@.len() ==> str_lt((#[trigger] old(out)@[i].spec_id()), p.spec_id()))
            ==> final(out)@ == old(out)@.push(p),
{
    let pid: String = match p.id() {
        Ok(s) => s,
        Err(_) => String::new(),
    };
    let mut k: usize = 0;
    loop
        invariant_except_break
            pid@ == p.spec_id(),
            k <= out@.len(),
            out@ == old(out)@,
            sorted_by_id(out@),
            forall|j: int| 0 <= j < k ==> str_lt((#[trigger] out@[j].spec_id()), pid@),
        ensures
            pid@ == p.spec_id(),
            k <= out@.len(),
            out@ == old(out)@,
            forall|j: int| 0 <= j < k ==> str_lt((#[trigger] out@[j].spec_id()), pid@),
            k < out@.len() ==> !str_lt(out@[k as int].spec_id(), pid@),
        decreases out@.len() - k,
    {
        if k == out.len() {
            break;
        }
        let oid: String = match out[k].id() {
            Ok(s) => s,
            Err(_) => String::new(),
        };
        if !str_compare_lt(oid.as_str(), pid.as_str()) {
            break;
        }
        k += 1;
    }
    let mut duplicate = false;
    if k < out.len() {
        let oid: String = match out[k].id() {
            Ok(s) => s,
            Err(_) => String::new(),
        };
        if oid == pid {
            duplicate = true;
        }
    }
    if duplicate {
        proof {
            assert(out@[k as int].spec_id() == p.spec_id());
            assert forall|i: int| 0 <= i < out@.len() implies exists|j: int|
                0 <= j < out@.len() && (#[trigger] out@[i].spec_id()) == out@[j].spec_id() by {
                assert(0 <= i < out@.len() && out@[i].spec_id() == out@[i].spec_id());
            }
            if forall|i: int|
                0 <= i < out@.len() ==> str_lt((#[trigger] out@[i].spec_id()), p.spec_id()) {
                assert(str_lt(out@[k as int].spec_id(), p.spec_id()));
                lemma_str_lt_trichotomy(out@[k as int].spec_id(), p.spec_id());
                assert(false);
            }
        }
    } else {
        let ghost out_before = out@;
        proof {
            reveal(sorted_by_id);
            if k < out_before.len() {
                lemma_str_lt_trichotomy(out_before[k as int].spec_id(), p.spec_id());
                assert(str_lt(pid@, out_before[k as int].spec_id()));
            }
        }
        out.insert(k, p);
        proof {
            reveal(sorted_by_id);
            assert(out@ == out_before.insert(k as int, p));
            assert forall|i: int, j: int| 0 <= i < j < out@.len() implies str_lt(
                (#[trigger] out@[i].spec_id()),
                (#[trigger] out@[j].spec_id()),
            ) by {
                if i < k && j == k {
                    assert(out@[i] == out_before[i]);
                    assert(out@[j] == p);
                } else if i == k && j > k {
                    assert(out@[i] == p);
                    assert(out@[j] == out_before[j - 1]);
                    if j - 1 > k {
                        lemma_str_lt_transitive(
                            pid@,
                            out_before[k as int].spec_id(),
                            out_before[j - 1].spec_id(),
                        );
                    }
                } else if i < k && j > k {
                    assert(out@[i] == out_before[i]);
                    assert(out@[j] == out_before[j - 1]);
                    if j - 1 == k {
                        lemma_str_lt_transitive(
                            out_before[i].spec_id(),
                            pid@,
                            out_before[k as int].spec_id(),
                        );
                    }
                } else if i < k && j < k {
                    assert(out@[i] == out_before[i]);
                    assert(out@[j] == out_before[j]);
                } else {
                    assert(out@[i] == out_before[i - 1]);
                    assert(out@[j] == out_before[j - 1]);
                }
            }
            assert forall|i: int| 0 <= i < out_before.len() implies exists|j: int|
                0 <= j < out@.len() && (#[trigger] out_before[i].spec_id())
                    == out@[j].spec_id() by {
                if i < k {
                    assert(out_before[i].spec_id() == out@[i].spec_id());
                } else {
                    assert(out_before[i].spec_id() == out@[i + 1].spec_id());
                }
            }
            assert forall|i: int| 0 <= i < out@.len() implies out_before.contains(
                #[trigger] out@[i],
            ) || out@[i] == p by {
                if i < k {
                    assert(out_before[i] == out@[i]);
                } else if i > k {
                    assert(out_before[i - 1] == out@[i]);
                }
            }
            assert(out@[k as int].spec_id() == p.spec_id());
            if forall|i: int|
                0 <= i < out_before.len() ==> str_lt(
                    (#[trigger] out_before[i].spec_id()),
                    p.spec_id(),
                ) {
                assert(k == out_before.len());
                assert(out@ =~= out_before.push(p));
            }
        }
    }
}

/// A problem without a migration contributes nothing to the rollback
/// script, even when it carries a rollback text: inserting such a problem
/// anywhere in a report leaves the rollback text unchanged.
pub proof fn lemma_rollback_needs_migration(
    prefix: Seq<Problem>,
    p: Problem,
    suffix: Seq<Problem>,
    acc: Seq<char>,
)
    requires
        p.migration is None,
    ensures
        rollbacks_text(prefix + seq![p] + suffix, acc) == rollbacks_text(prefix + suffix, acc),
    decreases prefix.len(),
{
    if prefix.len() == 0 {
        assert((prefix + seq![p] + suffix).first() == p);
        assert((prefix + seq![p] + suffix).drop_first() =~= suffix);
        assert(prefix + suffix =~= suffix);
    } else {
        let h = prefix.first();
        assert((prefix + seq![p] + suffix).first() == h);
        assert((prefix + suffix).first() == h);
        assert((prefix + seq![p] + suffix).drop_first() =~= prefix.drop_first() + seq![p] + suffix);
        assert((prefix + suffix).drop_first() =~= prefix.drop_first() + suffix);
        let acc2 = if h.migration is Some && h.rollback is Some && h.rollback->0@.len() > 0 {
            if acc.len() == 0 {
                h.rollback->0@
            } else {
                acc + seq!['\n'] + h.rollback->0@
            }
        } else {
            acc
        };
        lemma_rollback_needs_migration(prefix.drop_first(), p, suffix, acc2);
    }
}

/// An iterator over a report's problems.
pub struct Iter<'a> {
    pub report: &'a Report,
    pub index: usize,
}

impl<'a> Iter<'a> {
    /// The next problem, or nothing once all have been handed out.
    pub fn next(&mut self) -> (r: Option<&'a Problem>)
        ensures
            old(self).index < old(self).report@.len() ==> (r matches Some(p) && *p == old(
                self,
            ).report@[old(self).index as int] && final(self).index == old(self).index + 1),
            old(self).index >= old(self).report@.len() ==> r is None && *final(self) == *old(self),
            final(self).report == old(self).report,
    {
        if self.index < self.report.problems.len() {
            let problem = &self.report.problems[self.index];
            self.index = self.index + 1;
            Some(problem)
        } else {
            None
        }
    }
}

} // verus!
