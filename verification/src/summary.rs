//! Verdicts of a campaign run: the limit operators, step and group
//! statuses, and the one-line summary of a run.
use vstd::prelude::*;
use crate::text::{decimal, push_decimal, push_str, str_eq};

verus! {

/// The comparison a limit makes between a measured value and its bound.
#[derive(Debug, Clone, Copy, PartialEq, Eq)]
pub enum LimitOp {
    /// Equal within tolerance.
    Eq,
    /// Farther than tolerance.
    Ne,
    Lt,
    Le,
    Gt,
    Ge,
    /// Absolute deviation within tolerance.
    Within,
    /// Absolute deviation beyond tolerance.
    Outside,
    /// An operator this library does not know; it always passes.
    Unknown,
}

/// The operator a limit's `op` string names.
pub open spec fn limit_op_of(op: Seq<char>) -> LimitOp {
    if op == "eq"@ {
        LimitOp::Eq
    } else if op == "ne"@ {
        LimitOp::Ne
    } else if op == "lt"@ {
        LimitOp::Lt
    } else if op == "le"@ {
        LimitOp::Le
    } else if op == "gt"@ {
        LimitOp::Gt
    } else if op == "ge"@ {
        LimitOp::Ge
    } else if op == "within"@ {
        LimitOp::Within
    } else if op == "outside"@ {
        LimitOp::Outside
    } else {
        LimitOp::Unknown
    }
}

impl LimitOp {
    /// Reads a limit's `op` string (case-sensitive).
    pub fn parse(op: &str) -> (r: LimitOp)
        ensures
            r == limit_op_of(op@),
    {
        if str_eq(op, "eq") {
            LimitOp::Eq
        } else if str_eq(op, "ne") {
            LimitOp::Ne
        } else if str_eq(op, "lt") {
            LimitOp::Lt
        } else if str_eq(op, "le") {
            LimitOp::Le
        } else if str_eq(op, "gt") {
            LimitOp::Gt
        } else if str_eq(op, "ge") {
            LimitOp::Ge
        } else if str_eq(op, "within") {
            LimitOp::Within
        } else if str_eq(op, "outside") {
            LimitOp::Outside
        } else {
            LimitOp::Unknown
        }
    }
}

/// The number of `true` entries.
pub open spec fn count_true(s: Seq<bool>) -> nat
    decreases s.len(),
{
    if s.len() == 0 {
        0
    } else {
        count_true(s.drop_last()) + if s.last() {
            1nat
        } else {
            0nat
        }
    }
}

/// Whether any step failed; a group fails exactly then.
pub fn any_failed(steps: &Vec<bool>) -> (r: bool)
    ensures
        r == (count_true(steps@) > 0),
        r == exists|i: int| 0 <= i < steps@.len() && steps@[i],
{
    let mut i: usize = 0;
    while i < steps.len()
        invariant
            i <= steps@.len(),
            forall|k: int| 0 <= k < i ==> !steps@[k],
            count_true(steps@.subrange(0, i as int)) == 0,
        decreases steps@.len() - i,
    {
        if steps[i] {
            proof {
                lemma_count_true_positive(steps@, i as int);
            }
            return true;
        }
        assert(steps@.subrange(0, i + 1).drop_last() =~= steps@.subrange(0, i as int));
        i = i + 1;
    }
    assert(steps@.subrange(0, i as int) =~= steps@);
    false
}

proof fn lemma_count_true_positive(s: Seq<bool>, i: int)
    requires
        0 <= i < s.len(),
        s[i],
    ensures
        count_true(s) > 0,
    decreases s.len(),
{
    if i < s.len() - 1 {
        lemma_count_true_positive(s.drop_last(), i);
    }
}

pub proof fn lemma_count_true_le_len(s: Seq<bool>)
    ensures
        count_true(s) <= s.len(),
    decreases s.len(),
{
    if s.len() > 0 {
        lemma_count_true_le_len(s.drop_last());
    }
}

/// The JSON status of a step or group: `failed` or `passed`.
pub fn status_str(failed: bool) -> (r: &'static str)
    ensures
        r@ == if failed {
            "failed"@
        } else {
            "passed"@
        },
{
    if failed {
        "failed"
    } else {
        "passed"
    }
}

/// The number of steps over all groups.
pub open spec fn total_steps(groups: Seq<Seq<bool>>) -> nat
    decreases groups.len(),
{
    if groups.len() == 0 {
        0
    } else {
        total_steps(groups.drop_last()) + groups.last().len()
    }
}

/// The number of failed steps over all groups.
pub open spec fn failed_steps(groups: Seq<Seq<bool>>) -> nat
    decreases groups.len(),
{
    if groups.len() == 0 {
        0
    } else {
        failed_steps(groups.drop_last()) + count_true(groups.last())
    }
}

pub proof fn lemma_failed_le_total(groups: Seq<Seq<bool>>)
    ensures
        failed_steps(groups) <= total_steps(groups),
    decreases groups.len(),
{
    if groups.len() > 0 {
        lemma_failed_le_total(groups.drop_last());
        lemma_count_true_le_len(groups.last());
    }
}

/// `count_true` counts the `true` flags.
proof fn lemma_count_true_filter(s: Seq<bool>)
    ensures
        count_true(s) == s.filter(|b: bool| b).len(),
    decreases s.len(),
{
    if s.len() > 0 {
        lemma_count_true_filter(s.drop_last());
        assert(s =~= s.drop_last().push(s.last()));
        s.drop_last().lemma_filter_push(s.last(), |b: bool| b);
    }
}

/// The step counts of a run are counts over all its steps, whatever group
/// they belong to: the total is the number of step flags, the failed count
/// is the number of `true` flags (a group with `k` failed steps adds `k`),
/// and the summary line reads `passed/total passed, failed failed` with
/// these numbers.
pub proof fn lemma_summary_counts_steps(groups: Seq<Seq<bool>>)
    ensures
        total_steps(groups) == groups.flatten().len(),
        failed_steps(groups) == groups.flatten().filter(|b: bool| b).len(),
        summary_text(groups) == decimal(
            (groups.flatten().len() - groups.flatten().filter(|b: bool| b).len()) as nat,
        ) + "/"@ + decimal(groups.flatten().len()) + " passed, "@ + decimal(
            groups.flatten().filter(|b: bool| b).len(),
        ) + " failed"@,
    decreases groups.len(),
{
    if groups.len() > 0 {
        let init = groups.drop_last();
        let g = groups.last();
        lemma_summary_counts_steps(init);
        lemma_count_true_filter(g);
        assert(groups =~= init.push(g));
        init.lemma_flatten_push(g);
        Seq::filter_distributes_over_add(init.flatten(), g, |b: bool| b);
    }
}

/// The step failures per group.
pub open spec fn group_views(groups: Seq<Vec<bool>>) -> Seq<Seq<bool>> {
    groups.map_values(|g: Vec<bool>| g@)
}

/// `passed/total passed, failed failed`.
pub open spec fn summary_text(groups: Seq<Seq<bool>>) -> Seq<char> {
    let total = total_steps(groups);
    let failed = failed_steps(groups);
    decimal((total - failed) as nat) + "/"@ + decimal(total) + " passed, "@ + decimal(failed)
        + " failed"@
}

/// The one-line summary of a run, from the failure flags of each group's
/// steps.
pub fn format_summary(groups: &Vec<Vec<bool>>) -> (r: String)
    requires
        total_steps(group_views(groups@)) <= u64::MAX,
    ensures
        r@ == summary_text(group_views(groups@)),
{
    let ghost gv = group_views(groups@);
    let mut total: u64 = 0;
    let mut failed: u64 = 0;
    let mut g: usize = 0;
    while g < groups.len()
        invariant
            gv == group_views(groups@),
            total_steps(gv) <= u64::MAX,
            g <= groups@.len(),
            total == total_steps(gv.subrange(0, g as int)),
            failed == failed_steps(gv.subrange(0, g as int)),
            total_steps(gv.subrange(0, g as int)) <= total_steps(gv),
        decreases groups@.len() - g,
    {
        let steps = &groups[g];
        let ghost pre = gv.subrange(0, g as int);
        let ghost next = gv.subrange(0, g + 1);
        assert(next.drop_last() =~= pre);
        assert(next.last() == steps@);
        proof {
            lemma_total_prefix(gv, g + 1);
            lemma_failed_le_total(pre);
        }
        let mut i: usize = 0;
        let mut f: u64 = failed;
        while i < steps.len()
            invariant
                i <= steps@.len(),
                f == failed + count_true(steps@.subrange(0, i as int)),
                count_true(steps@.subrange(0, i as int)) <= i,
                failed + steps@.len() <= u64::MAX,
            decreases steps@.len() - i,
        {
            assert(steps@.subrange(0, i + 1).drop_last() =~= steps@.subrange(0, i as int));
            if steps[i] {
                f = f + 1;
            }
            i = i + 1;
        }
        assert(steps@.subrange(0, i as int) =~= steps@);
        total = total + steps.len() as u64;
        failed = f;
        g = g + 1;
    }
    assert(gv.subrange(0, g as int) =~= gv);
    proof {
        lemma_failed_le_total(gv);
    }
    let mut s = String::new();
    push_decimal(&mut s, total - failed);
    push_str(&mut s, "/");
    push_decimal(&mut s, total);
    push_str(&mut s, " passed, ");
    push_decimal(&mut s, failed);
    push_str(&mut s, " failed");
    s
}

proof fn lemma_total_prefix(gv: Seq<Seq<bool>>, k: int)
    requires
        0 <= k <= gv.len(),
    ensures
        total_steps(gv.subrange(0, k)) <= total_steps(gv),
    decreases gv.len() - k,
{
    if k < gv.len() {
        lemma_total_prefix(gv, k + 1);
        assert(gv.subrange(0, k + 1).drop_last() =~= gv.subrange(0, k));
    } else {
        assert(gv.subrange(0, k) =~= gv);
    }
}

} // verus!
