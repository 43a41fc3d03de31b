//! The widths and row selections of the simulator's text report.

use vstd::prelude::*;

verus! {

/// The width, in characters, of a report's horizontal rules.
pub const RULE_WIDTH: usize = 72;

/// The width of a section heading, dashes included.
pub const SECTION_WIDTH: usize = 60;

/// The spaces before a banner title `text_len` characters long, so that it
/// stands centred over a rule; none for a title as wide as the rule or wider.
pub fn banner_padding(text_len: usize) -> (pad: usize)
    ensures
        pad == (if text_len <= RULE_WIDTH { (RULE_WIDTH - text_len) / 2 } else { 0 }),
{
    RULE_WIDTH.saturating_sub(text_len) / 2
}

/// The dashes after a section title `text_len` characters long, which with
/// the six characters around the title fill the heading's width; none for a
/// title too long for that.
pub fn section_rule_len(text_len: usize) -> (n: usize)
    requires
        text_len + 6 <= usize::MAX,
    ensures
        n == (if text_len + 6 <= SECTION_WIDTH { SECTION_WIDTH - (text_len + 6) } else { 0 }),
{
    SECTION_WIDTH.saturating_sub(text_len + 6)
}

/// The stride between the rows shown when a table of `len` rows is cut down to
/// about `parts` rows: `len / parts`, and at least one.
pub open spec fn sample_step(len: nat, parts: nat) -> nat {
    if len / parts >= 1 {
        len / parts
    } else {
        1
    }
}

/// Whether row `i` of a table of `len` rows is shown when it is cut down to
/// about `parts` rows: every `sample_step`-th row from the first, and the last.
pub open spec fn is_sampled(i: nat, len: nat, parts: nat) -> bool {
    i % sample_step(len, parts) == 0 || i + 1 == len
}

/// The indices of the rows shown when a table of `len` rows is cut down to
/// about `parts` rows, in increasing order.
pub fn sampled_rows(len: usize, parts: usize) -> (rows: Vec<usize>)
    requires
        parts > 0,
    ensures
        forall|k: int| 0 <= k < rows@.len() ==> #[trigger] rows@[k] < len,
        forall|k: int, l: int| 0 <= k < l < rows@.len() ==> rows@[k] < rows@[l],
        forall|i: usize| i < len ==> (rows@.contains(i) <==> is_sampled(i as nat, len as nat, parts as nat)),
        len >= parts ==> forall|i: usize|
            i < len ==> (#[trigger] rows@.contains(i) <==> (i % (len / parts) == 0 || i + 1 == len)),
        len < parts ==> forall|i: usize| i < len ==> #[trigger] rows@.contains(i),
{
    let step: usize = if len / parts >= 1 {
        len / parts
    } else {
        1
    };
    let mut rows: Vec<usize> = Vec::new();
    for i in 0..len
        invariant
            step == sample_step(len as nat, parts as nat),
            step >= 1,
            forall|k: int| 0 <= k < rows@.len() ==> #[trigger] rows@[k] < i,
            forall|k: int, l: int| 0 <= k < l < rows@.len() ==> rows@[k] < rows@[l],
            forall|j: usize| j < i ==> (rows@.contains(j) <==> is_sampled(j as nat, len as nat, parts as nat)),
            forall|j: usize| #![trigger rows@.contains(j)] i <= j ==> !rows@.contains(j),
    {
        let ghost before = rows@;
        if i % step == 0 || i + 1 == len {
            rows.push(i);
            proof {
                assert(rows@.last() == i);
                assert forall|j: usize| j <= i implies (rows@.contains(j) <==> (before.contains(j) || j == i)) by {
                    if rows@.contains(j) {
                        let k: int = choose|k: int| 0 <= k < rows@.len() && rows@[k] == j;
                        if k < before.len() {
                            assert(before[k] == j);
                        }
                    }
                    if j == i {
                        assert(rows@[rows@.len() - 1] == j);
                    }
                    if before.contains(j) {
                        let k: int = choose|k: int| 0 <= k < before.len() && before[k] == j;
                        assert(rows@[k] == j);
                    }
                }
                assert forall|j: usize| #![trigger rows@.contains(j)] i + 1 <= j implies !rows@.contains(j) by {
                    if rows@.contains(j) {
                        let k: int = choose|k: int| 0 <= k < rows@.len() && rows@[k] == j;
                        if k < before.len() {
                            assert(before[k] == j);
                        }
                    }
                }
            }
        }
    }
    proof {
        assert forall|i: usize| i < len implies (is_sampled(i as nat, len as nat, parts as nat) <==> (
        len >= parts ==> (i % (len / parts) == 0 || i + 1 == len))) by {
            lemma_sampling_rule(i as nat, len as nat, parts as nat);
        }
    }
    rows
}

/// Which rows a table of `len` rows shows when cut down to about `parts`
/// rows: when `len >= parts`, exactly the multiples of `len / parts` and the
/// last row; when the table is shorter than `parts`, every row.
pub proof fn lemma_sampling_rule(i: nat, len: nat, parts: nat)
    requires
        parts > 0,
        i < len,
    ensures
        len >= parts ==> (is_sampled(i, len, parts) <==> (i % (len / parts) == 0 || i + 1 == len)),
        len < parts ==> is_sampled(i, len, parts),
{
    if len >= parts {
        vstd::arithmetic::div_mod::lemma_div_is_ordered(parts as int, len as int, parts as int);
        vstd::arithmetic::div_mod::lemma_div_basics(parts as int);
    } else {
        vstd::arithmetic::div_mod::lemma_basic_div(len as int, parts as int);
        assert(i % 1 == 0) by (nonlinear_arith);
    }
}

/// The first and the last row of a non-empty table are always shown.
pub proof fn lemma_ends_sampled(len: nat, parts: nat)
    requires
        len > 0,
        parts > 0,
    ensures
        is_sampled(0, len, parts),
        is_sampled((len - 1) as nat, len, parts),
{
    assert(0nat % sample_step(len, parts) == 0) by {
        vstd::arithmetic::div_mod::lemma_small_mod(0nat, sample_step(len, parts));
    }
}

} // verus!
