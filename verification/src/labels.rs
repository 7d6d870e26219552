//! Physical-qubit naming in the vendor wire format.
//!
//! The service addresses qubits by 1-based labels of the shape `QB<n>`, and
//! the shared resonator mode by a fixed sentinel label.

use vstd::prelude::*;
use vstd::string::StringExecFns;

verus! {

/// Compares two strings by their character content.
pub fn str_eq(a: &str, b: &str) -> (r: bool)
    ensures
        r == (a@ == b@),
{
    let owned_a = a.to_owned();
    let owned_b = b.to_owned();
    owned_a == owned_b
}

/// The character for one decimal digit.
pub open spec fn spec_digit_char(d: int) -> char
    recommends
        0 <= d <= 9,
{
    ((48 + d) as u8) as char
}

/// The decimal rendering of a non-negative integer, most significant digit
/// first, without sign or padding.
pub open spec fn spec_decimal(n: int) -> Seq<char>
    recommends
        n >= 0,
    decreases n,
{
    if n <= 9 {
        seq![spec_digit_char(n)]
    } else {
        spec_decimal(n / 10).push(spec_digit_char(n % 10))
    }
}

/// Relies on the standard library's `Display` implementation for `usize`:
/// it renders the value in decimal, most significant digit first, with no
/// sign, separators or padding.
#[verifier::external_body]
pub fn usize_to_string(n: usize) -> (r: String)
    ensures
        r@ == spec_decimal(n as int),
{
    n.to_string()
}

/// The wire-format label of a logical qubit: `QB<q+1>`.
pub open spec fn spec_qubit_label(q: int) -> Seq<char> {
    "QB"@ + spec_decimal(q + 1)
}

/// The wire-format label of the shared resonator mode.
pub open spec fn spec_resonator_label() -> Seq<char> {
    "COMP_R"@
}

/// Converts a 0-based qubit index into the vendor's 1-based label.
pub fn qubit_label(q: usize) -> (r: String)
    requires
        q < usize::MAX,
    ensures
        r@ == spec_qubit_label(q as int),
{
    let digits = usize_to_string(q + 1);
    let mut label = String::from_str("QB");
    label.append(digits.as_str());
    label
}

/// Converts a resonator mode index into the vendor's label. The devices
/// supported here have a single resonator, so every mode maps to the same
/// sentinel label.
pub fn resonator_label(_mode: usize) -> (r: String)
    ensures
        r@ == spec_resonator_label(),
{
    String::from_str("COMP_R")
}

/// The labels of all device qubits, in ascending order.
pub open spec fn spec_all_qubit_labels(n: int) -> Seq<Seq<char>> {
    Seq::new(n as nat, |i: int| spec_qubit_label(i))
}

/// Builds the list of all device qubit labels `QB1 ..= QB<n>`.
pub fn all_qubit_labels(n: usize) -> (r: Vec<String>)
    ensures
        r@.len() == n,
        forall|i: int| 0 <= i < n ==> r@[i]@ == spec_qubit_label(i),
{
    let mut labels: Vec<String> = Vec::new();
    let mut i: usize = 0;
    while i < n
        invariant
            i <= n,
            labels@.len() == i,
            forall|j: int| 0 <= j < i ==> labels@[j]@ == spec_qubit_label(j),
        decreases n - i,
    {
        labels.push(qubit_label(i));
        i = i + 1;
    }
    labels
}

/// Decimal renderings of distinct numbers are distinct.
pub proof fn lemma_decimal_injective(a: int, b: int)
    requires
        a >= 0,
        b >= 0,
        spec_decimal(a) == spec_decimal(b),
    ensures
        a == b,
    decreases a + b,
{
    lemma_decimal_len(a);
    lemma_decimal_len(b);
    if a <= 9 && b <= 9 {
        assert(spec_decimal(a)[0] == spec_digit_char(a));
        assert(spec_decimal(b)[0] == spec_digit_char(b));
    } else if a <= 9 {
        assert(spec_decimal(b).len() >= 2);
    } else if b <= 9 {
        assert(spec_decimal(a).len() >= 2);
    } else {
        assert(spec_decimal(a).last() == spec_digit_char(a % 10));
        assert(spec_decimal(b).last() == spec_digit_char(b % 10));
        assert(spec_decimal(a).drop_last() =~= spec_decimal(a / 10));
        assert(spec_decimal(b).drop_last() =~= spec_decimal(b / 10));
        lemma_decimal_injective(a / 10, b / 10);
        assert(a % 10 == b % 10);
        assert(a == 10 * (a / 10) + a % 10);
        assert(b == 10 * (b / 10) + b % 10);
    }
}

/// A decimal rendering has at least one digit, and more than one for
/// numbers past the first decade.
pub proof fn lemma_decimal_len(n: int)
    requires
        n >= 0,
    ensures
        spec_decimal(n).len() >= 1,
        n > 9 ==> spec_decimal(n).len() >= 2,
    decreases n,
{
    if n > 9 {
        lemma_decimal_len(n / 10);
    }
}

/// Labels of distinct qubits are distinct.
pub proof fn lemma_qubit_label_injective(a: int, b: int)
    requires
        a >= 0,
        b >= 0,
        spec_qubit_label(a) == spec_qubit_label(b),
    ensures
        a == b,
{
    let pre = "QB"@;
    assert(spec_decimal(a + 1) =~= spec_qubit_label(a).skip(pre.len() as int));
    assert(spec_decimal(b + 1) =~= spec_qubit_label(b).skip(pre.len() as int));
    lemma_decimal_injective(a + 1, b + 1);
}

} // verus!
