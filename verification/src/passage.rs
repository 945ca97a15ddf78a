use vstd::prelude::*;
use vstd::arithmetic::div_mod::{
    lemma_fundamental_div_mod, lemma_fundamental_div_mod_converse,
    lemma_mod_division_less_than_divisor, lemma_small_mod,
};
use crate::errors::TrialError;

verus! {

/// The exact sequence of characters a trial asks the user to reproduce.
///
/// Lengths and indices are counted in characters (code points), applied
/// uniformly in comparisons and indexing.
#[derive(Clone, Debug, PartialEq, Eq)]
pub struct Passage {
    chars: Vec<char>,
}

impl View for Passage {
    type V = Seq<char>;

    closed spec fn view(&self) -> Seq<char> {
        self.chars@
    }
}

impl Passage {
    pub fn new(chars: Vec<char>) -> (p: Passage)
        ensures
            p@ == chars@,
    {
        Passage { chars }
    }

    pub fn len(&self) -> (n: usize)
        ensures
            n == self@.len(),
    {
        self.chars.len()
    }

    pub fn char_at(&self, i: usize) -> (c: char)
        requires
            i < self@.len(),
        ensures
            c == self@[i as int],
    {
        self.chars[i]
    }

    pub fn as_chars(&self) -> (r: &Vec<char>)
        ensures
            r@ == self@,
    {
        &self.chars
    }
}

/// The character at position `i` of the source repeated without bound,
/// consecutive copies joined by a single space: the blocks have the shape
/// `source`, `' '`, `source`, `' '`, ...
pub open spec fn repeated_at(source: Seq<char>, i: int) -> char
    recommends
        source.len() > 0,
        0 <= i,
{
    let m = i % (source.len() + 1) as int;
    if m < source.len() {
        source[m]
    } else {
        ' '
    }
}

/// The normalized text for a source that must be stretched or cut: one
/// leading space, then exactly `target` characters of the space-joined
/// repetition of the source.
pub open spec fn normalized_text(source: Seq<char>, target: nat) -> Seq<char> {
    seq![' '] + Seq::new(target, |i: int| repeated_at(source, i))
}

/// What `normalize` returns, case by case over its inputs.
pub open spec fn normalized_result(source: Seq<char>, target: nat) -> Result<Seq<char>, TrialError> {
    if target == 0 {
        Ok(source)
    } else if source.len() == 0 {
        Err(TrialError::EmptySource)
    } else if source.len() == target {
        Ok(source)
    } else {
        Ok(normalized_text(source, target))
    }
}

/// Adjusts a source passage to a target length.
///
/// A zero target, or a source already of the target length, is returned
/// unchanged. An empty source with a nonzero target is an error. Otherwise
/// the result is a single leading space followed by the first `target_length`
/// characters of the source repeated cyclically, copies joined by single
/// spaces; when the source is longer than the target this truncates it.
pub fn normalize(source: Passage, target_length: usize) -> (r: Result<Passage, TrialError>)
    ensures
        (match r {
            Ok(p) => Ok::<Seq<char>, TrialError>(p@),
            Err(e) => Err(e),
        }) == normalized_result(source@, target_length as nat),
{
    let n = source.len();
    if target_length == 0 || n == target_length {
        Ok(source)
    } else if n == 0 {
        Err(TrialError::EmptySource)
    } else {
        let mut out: Vec<char> = Vec::new();
        out.push(' ');
        let mut i: usize = 0;
        let mut j: usize = 0;
        let ghost mut q: int = 0;
        while i < target_length
            invariant
                0 < n == source@.len(),
                i <= target_length,
                0 <= j <= n,
                q >= 0,
                i == q * (n + 1) + j,
                out@.len() == 1 + i,
                out@[0] == ' ',
                forall|k: int| 0 <= k < i ==> out@[1 + k] == repeated_at(source@, k),
            decreases target_length - i,
        {
            let ghost j_old: int = j as int;
            if j == n {
                out.push(' ');
                j = 0;
                proof {
                    q = q + 1;
                }
            } else {
                out.push(source.char_at(j));
                j = j + 1;
            }
            proof {
                lemma_fundamental_div_mod_converse(
                    i as int,
                    n as int + 1,
                    if j_old == n { q - 1 } else { q },
                    j_old,
                );
                assert(i as int % (n as int + 1) == j_old);
                assert(out@[1 + i] == repeated_at(source@, i as int));
                if j_old == n {
                    assert(q * (n as int + 1) == (q - 1) * (n as int + 1) + (n as int + 1))
                        by (nonlinear_arith);
                }
            }
            i = i + 1;
        }
        proof {
            assert(out@ =~= normalized_text(source@, target_length as nat));
        }
        Ok(Passage::new(out))
    }
}

/// A zero target always leaves the passage exactly as it was, even an empty
/// one: the whole text is used.
pub proof fn lemma_normalize_zero_target_identity(source: Seq<char>)
    ensures
        normalized_result(source, 0) == Ok::<Seq<char>, TrialError>(source),
{
}

/// A non-empty passage whose length already equals the target is returned
/// unchanged, so the result has exactly the target length.
pub proof fn lemma_normalize_same_length_identity(source: Seq<char>, target: nat)
    requires
        source.len() > 0,
        source.len() == target,
    ensures
        normalized_result(source, target) == Ok::<Seq<char>, TrialError>(source),
        normalized_result(source, target)->Ok_0.len() == target,
{
}

/// A target shorter than a non-empty source truncates: the normalized text
/// is a single space followed by the first `target` characters of the
/// source, so its length is `target + 1`.
pub proof fn lemma_normalized_truncates(source: Seq<char>, target: nat)
    requires
        target < source.len(),
    ensures
        normalized_text(source, target) == seq![' '] + source.take(target as int),
        normalized_text(source, target).len() == target + 1,
{
    assert forall|i: int| 0 <= i < target implies repeated_at(source, i) == source[i] by {
        lemma_small_mod(i as nat, (source.len() + 1) as nat);
    }
    assert(normalized_text(source, target) =~= seq![' '] + source.take(target as int));
}

/// `n` copies of a single space followed by the source, concatenated:
/// the unbounded repetition of `" " + source`, cut to `n` segments.
pub open spec fn space_block_rep(source: Seq<char>, n: nat) -> Seq<char>
    decreases n,
{
    if n == 0 {
        Seq::empty()
    } else {
        space_block_rep(source, (n - 1) as nat) + (seq![' '] + source)
    }
}

proof fn lemma_space_block_rep_len(source: Seq<char>, n: nat)
    ensures
        space_block_rep(source, n).len() == n * (source.len() + 1),
    decreases n,
{
    let b = source.len() as int + 1;
    if n > 0 {
        lemma_space_block_rep_len(source, (n - 1) as nat);
        assert(space_block_rep(source, n).len() == ((n - 1) as nat) * b + b);
        assert(n as int * b == (n as int - 1) * b + b) by (nonlinear_arith);
        assert(((n - 1) as nat) * b == (n as int - 1) * b);
    } else {
        assert(space_block_rep(source, n).len() == 0);
        assert(n as int * b == 0) by (nonlinear_arith)
            requires n as int == 0;
    }
}

proof fn lemma_space_block_rep_index(source: Seq<char>, n: nat, i: int)
    requires
        source.len() > 0,
        0 <= i < n * (source.len() + 1),
    ensures
        space_block_rep(source, n)[i] == (if i % (source.len() + 1) as int == 0 {
            ' '
        } else {
            source[i % (source.len() + 1) as int - 1]
        }),
    decreases n,
{
    let b = source.len() as int + 1;
    lemma_space_block_rep_len(source, n);
    if n == 0 {
        assert(false);
    } else {
        lemma_space_block_rep_len(source, (n - 1) as nat);
        assert(n * b == (n - 1) * b + b) by (nonlinear_arith);
        if i < (n - 1) * b {
            lemma_space_block_rep_index(source, (n - 1) as nat, i);
        } else {
            let r = i - (n - 1) * b;
            lemma_fundamental_div_mod_converse(i, b, n as int - 1, r);
            assert(space_block_rep(source, n)[i] == (seq![' '] + source)[r]);
        }
    }
}

/// The normalized text for a stretched or cut non-empty source is one
/// character longer than the target, and it is a prefix of the unbounded
/// repetition of `" " + source` segments.
pub proof fn lemma_normalized_prefix_of_repetition(source: Seq<char>, target: nat)
    requires
        source.len() > 0,
    ensures
        normalized_text(source, target).len() == target + 1,
        normalized_text(source, target).is_prefix_of(space_block_rep(source, target + 1)),
{
    let ntext = normalized_text(source, target);
    let b = source.len() as int + 1;
    let reps = space_block_rep(source, (target + 1) as nat);
    lemma_space_block_rep_len(source, (target + 1) as nat);
    assert((target + 1) * b >= (target + 1) * 1) by (nonlinear_arith)
        requires b >= 1;
    assert forall|i: int| 0 <= i < target + 1 implies ntext[i] == reps[i] by {
        lemma_space_block_rep_index(source, (target + 1) as nat, i);
        if i == 0 {
            lemma_small_mod(0, b as nat);
        } else {
            let q = (i - 1) / b;
            let r = (i - 1) % b;
            lemma_fundamental_div_mod(i - 1, b);
            lemma_mod_division_less_than_divisor(i - 1, b);
            assert(i - 1 == q * b + r) by {
                assert(i - 1 == b * q + r);
                assert(b * q == q * b) by (nonlinear_arith);
            }
            assert(ntext[i] == repeated_at(source, i - 1));
            if r == source.len() {
                assert((q + 1) * b == q * b + b) by (nonlinear_arith);
                lemma_fundamental_div_mod_converse(i, b, q + 1, 0);
            } else {
                lemma_fundamental_div_mod_converse(i, b, q, r + 1);
            }
        }
    }
    assert(ntext =~= reps.subrange(0, ntext.len() as int));
}

} // verus!
