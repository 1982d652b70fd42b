//! The identifier at the end of a seeded key: 128 bits, of which the upper 48
//! are the clock's milliseconds and the lower 80 are random, written as 26
//! symbols of five bits each, most significant first.

use crate::order::key_le;
use ulid::Ulid;
use vstd::arithmetic::div_mod::{lemma_mod_breakdown, lemma_small_mod};
use vstd::prelude::*;

verus! {

/// The number of symbols in an identifier's text.
pub const TOKEN_LEN: usize = 26;

/// The symbols that stand for the numbers 0 to 31: the digits, then the
/// capital letters without I, L, O and U.
pub open spec fn symbols() -> Seq<char> {
    seq![
        '0', '1', '2', '3', '4', '5', '6', '7', '8', '9', 'A', 'B', 'C', 'D', 'E', 'F', 'G', 'H',
        'J', 'K', 'M', 'N', 'P', 'Q', 'R', 'S', 'T', 'V', 'W', 'X', 'Y', 'Z',
    ]
}

/// 32 to the power of `n`.
pub open spec fn weight(n: nat) -> nat
    decreases n,
{
    if n == 0 {
        1
    } else {
        32 * weight((n - 1) as nat)
    }
}

/// The `place`-th group of five bits of `id`, counted from the least
/// significant.
pub open spec fn group(id: u128, place: nat) -> int {
    (id as int / weight(place) as int) % 32
}

/// The text of `id`: at each position, from the left, the symbol of the
/// group of five bits that stands there.
pub open spec fn token_text(id: u128) -> Seq<char> {
    Seq::new(TOKEN_LEN as nat, |at: int| symbols()[group(id, (TOKEN_LEN - 1 - at) as nat)])
}

/// Draws a fresh identifier with `Ulid::new`, from the clock and the
/// thread's random source. Nothing is claimed of the value: two calls may
/// give any two identifiers.
#[verifier::external_body]
pub(crate) fn fresh_id() -> u128 {
    u128::from(Ulid::new())
}

/// Writes an identifier with `Ulid::to_string`. Believed of it, as its
/// encoder shows: the text has 26 symbols, and the symbol at each position
/// is the one that the alphabet gives for that group of five bits.
#[verifier::external_body]
pub(crate) fn id_text(id: u128) -> (text: String)
    ensures
        text@ == token_text(id),
{
    Ulid::from(id).to_string()
}

/// Whether `c` is one of the 32 symbols.
pub open spec fn is_symbol(c: char) -> bool {
    symbols().contains(c)
}

/// The text of an identifier has 26 characters, each of them a symbol and
/// none of them a colon.
pub proof fn lemma_token_shape(id: u128)
    ensures
        token_text(id).len() == TOKEN_LEN,
        forall|at: int| 0 <= at < TOKEN_LEN ==> is_symbol(#[trigger] token_text(id)[at]),
        !token_text(id).contains(':'),
{
    assert forall|at: int| 0 <= at < TOKEN_LEN implies is_symbol(#[trigger] token_text(id)[at]) by {
        let g = group(id, (TOKEN_LEN - 1 - at) as nat);
        assert(token_text(id)[at] == symbols()[g]);
    }
}

proof fn lemma_weight_positive(n: nat)
    ensures
        weight(n) > 0,
    decreases n,
{
    if n > 0 {
        lemma_weight_positive((n - 1) as nat);
    }
}

/// No identifier reaches 32 to the power of 26.
proof fn lemma_weight_exceeds_ids()
    ensures
        weight(26) > u128::MAX,
{
    reveal_with_fuel(weight, 27);
}

/// The symbols ascend with the numbers they stand for.
proof fn lemma_symbols_ascend()
    ensures
        forall|i: int, j: int|
            0 <= i < j < 32 ==> (#[trigger] symbols()[i]) < (#[trigger] symbols()[j]),
{
}

/// No two numbers below 32 share a symbol.
proof fn lemma_symbols_differ()
    ensures
        forall|i: int, j: int|
            0 <= i < 32 && 0 <= j < 32 && #[trigger] symbols()[i] == #[trigger] symbols()[j] ==> i
                == j,
{
    lemma_symbols_ascend();
}

/// Two identifiers that agree in their `n` lowest groups leave the same
/// remainder by 32 to the power of `n`.
proof fn lemma_groups_fix_remainder(a: u128, b: u128, n: nat)
    requires
        forall|place: nat| place < n ==> group(a, place) == group(b, place),
    ensures
        (a as int) % (weight(n) as int) == (b as int) % (weight(n) as int),
    decreases n,
{
    if n > 0 {
        let m = (n - 1) as nat;
        lemma_groups_fix_remainder(a, b, m);
        lemma_weight_positive(m);
        lemma_mod_breakdown(a as int, weight(m) as int, 32);
        lemma_mod_breakdown(b as int, weight(m) as int, 32);
        assert(group(a, m) == group(b, m));
    }
}

/// Two identifiers with the same text are the same identifier.
pub proof fn lemma_token_text_injective(a: u128, b: u128)
    requires
        token_text(a) == token_text(b),
    ensures
        a == b,
{
    assert forall|place: nat| place < 26 implies group(a, place) == group(b, place) by {
        let at = 25 - place;
        assert(token_text(b)[at] == symbols()[group(b, place)]);
        lemma_symbols_differ();
    }
    lemma_groups_fix_remainder(a, b, 26);
    lemma_weight_exceeds_ids();
    lemma_small_mod(a as nat, weight(26));
    lemma_small_mod(b as nat, weight(26));
}

/// The last `n` symbols of two identifiers' texts compare as the numbers of
/// their `n` lowest groups do.
proof fn lemma_endings_compare_as_remainders(a: u128, b: u128, n: nat)
    requires
        n <= TOKEN_LEN,
    ensures
        key_le(token_text(a).skip(TOKEN_LEN - n), token_text(b).skip(TOKEN_LEN - n)) <==> (a as int)
            % (weight(n) as int) <= (b as int) % (weight(n) as int),
    decreases n,
{
    let end_a = token_text(a).skip(TOKEN_LEN - n);
    let end_b = token_text(b).skip(TOKEN_LEN - n);
    if n > 0 {
        let m = (n - 1) as nat;
        let w = weight(m) as int;
        lemma_endings_compare_as_remainders(a, b, m);
        lemma_weight_positive(m);
        lemma_mod_breakdown(a as int, w, 32);
        lemma_mod_breakdown(b as int, w, 32);
        let ga = group(a, m);
        let gb = group(b, m);
        assert(end_a.drop_first() =~= token_text(a).skip(TOKEN_LEN - m));
        assert(end_b.drop_first() =~= token_text(b).skip(TOKEN_LEN - m));
        lemma_symbols_ascend();
        if ga < gb {
            assert(w * ga + w <= w * gb) by (nonlinear_arith)
                requires
                    ga + 1 <= gb,
                    w > 0,
            ;
        } else if gb < ga {
            assert(w * gb + w <= w * ga) by (nonlinear_arith)
                requires
                    gb + 1 <= ga,
                    w > 0,
            ;
        }
    }
}

/// The texts of two identifiers are in lexicographic order exactly when the
/// identifiers are in order: sorting the texts sorts the identifiers, and so
/// sorts by the time in their upper bits.
pub proof fn lemma_token_text_sorts_as_id(a: u128, b: u128)
    ensures
        key_le(token_text(a), token_text(b)) <==> a <= b,
{
    lemma_endings_compare_as_remainders(a, b, TOKEN_LEN as nat);
    assert(token_text(a).skip(0) =~= token_text(a));
    assert(token_text(b).skip(0) =~= token_text(b));
    lemma_weight_exceeds_ids();
    lemma_small_mod(a as nat, weight(26));
    lemma_small_mod(b as nat, weight(26));
}

} // verus!
