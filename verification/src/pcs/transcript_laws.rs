//! A step of a transcript can be told from its words: nothing of it is left out.

use vstd::prelude::*;

use super::channel::Step;
use super::transcript::{challenge, felt_words, state_after, step_words};
use crate::fields::qm31::QM31;
use crate::vcs::blake2s::{blake2s_s, output_s, Blake2sHash};

verus! {

/// Word `4 * i + j` of secure elements is coordinate `j` of the `i`-th of them.
pub proof fn lemma_felt_words(felts: Seq<QM31>, i: int, j: int)
    requires
        0 <= i < felts.len(),
        0 <= j < 4,
    ensures
        felt_words(felts).len() == 4 * felts.len(),
        felt_words(felts)[4 * i + j] == felts[i].coords()[j].0,
    decreases felts.len(),
{
    lemma_felt_words_len(felts);
    lemma_felt_words_len(felts.drop_last());
    if i < felts.len() - 1 {
        lemma_felt_words(felts.drop_last(), i, j);
    }
}

/// A secure element has four words.
pub proof fn lemma_felt_words_len(felts: Seq<QM31>)
    ensures
        felt_words(felts).len() == 4 * felts.len(),
    decreases felts.len(),
{
    if felts.len() > 0 {
        lemma_felt_words_len(felts.drop_last());
    }
}

/// Secure elements are determined by their words.
pub proof fn lemma_felt_words_injective(a: Seq<QM31>, b: Seq<QM31>)
    requires
        felt_words(a) == felt_words(b),
    ensures
        a == b,
{
    lemma_felt_words_len(a);
    lemma_felt_words_len(b);
    assert forall|i: int| 0 <= i < a.len() implies a[i] == b[i] by {
        lemma_felt_words(a, i, 0);
        lemma_felt_words(a, i, 1);
        lemma_felt_words(a, i, 2);
        lemma_felt_words(a, i, 3);
        lemma_felt_words(b, i, 0);
        lemma_felt_words(b, i, 1);
        lemma_felt_words(b, i, 2);
        lemma_felt_words(b, i, 3);
        let (x, y) = (a[i], b[i]);
        assert(x.coords()[0] == x.0.0 && x.coords()[1] == x.0.1);
        assert(x.coords()[2] == x.1.0 && x.coords()[3] == x.1.1);
    }
    assert(a =~= b);
}

/// Two steps with the same words are the same step, or both are draws: what a draw gives follows
/// from the steps before it.
pub proof fn lemma_step_words_injective(a: Step<Blake2sHash>, b: Step<Blake2sHash>)
    requires
        step_words(a) == step_words(b),
    ensures
        a == b || a is Drawn && b is Drawn,
{
    let (v, w) = (step_words(a), step_words(b));
    assert(v[0] == w[0]);
    match (a, b) {
        (Step::Felts(x), Step::Felts(y)) => {
            assert(v.drop_first() =~= felt_words(x));
            assert(w.drop_first() =~= felt_words(y));
            lemma_felt_words_injective(x, y);
        },
        (Step::Number(x), Step::Number(y)) => {
            assert(v[1] == w[1]);
            assert(v[2] == w[2]);
            assert(x == (x / 0x1_0000_0000) * 0x1_0000_0000 + x % 0x1_0000_0000);
            assert(y == (y / 0x1_0000_0000) * 0x1_0000_0000 + y % 0x1_0000_0000);
        },
        (Step::Root(x), Step::Root(y)) => {
            assert(v.drop_first() =~= x.0@);
            assert(w.drop_first() =~= y.0@);
            assert(x.0 =~= y.0);
        },
        _ => {},
    }
}

/// A step leads to the digest of the eight words of the state before it and the words of the step.
pub proof fn lemma_state_words(
    steps: Seq<Step<Blake2sHash>>,
    step: Step<Blake2sHash>,
    words: Seq<u32>,
)
    requires
        words.len() == 8 + step_words(step).len(),
        words.take(8) == state_after(steps),
        words.skip(8) == step_words(step),
    ensures
        state_after(steps.push(step)) == blake2s_s(words),
{
    assert(steps.push(step).drop_last() =~= steps);
    assert(words =~= words.take(8) + words.skip(8));
}

/// What is drawn are the first four words of a digest, reduced: of the state and a word with which
/// no step begins.
pub proof fn lemma_draw_words(
    steps: Seq<Step<Blake2sHash>>,
    step: Step<Blake2sHash>,
    words: Seq<u32>,
)
    requires
        words.len() == 9,
        words.take(8) == state_after(steps),
        words[8] == 4,
    ensures
        step_words(step)[0] != words[8],
        forall|j: int|
            0 <= j < 4 ==> #[trigger] challenge(steps).coords()[j].0 == output_s(
                blake2s_s(words),
                true,
            )[j],
{
    assert(words =~= state_after(steps) + seq![4u32]);
    let c = challenge(steps);
    assert(c.coords()[0] == c.0.0 && c.coords()[1] == c.0.1);
    assert(c.coords()[2] == c.1.0 && c.coords()[3] == c.1.1);
}

} // verus!
