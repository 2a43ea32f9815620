//! Pattern keys: short strings over the six-symbol alphabet `{q,w,e,a,s,d}`.

use vstd::prelude::*;
use crate::rng::rand_u32_below;

verus! {

/// Whether a character belongs to the pattern alphabet.
pub open spec fn is_pattern_symbol(c: char) -> bool {
    c == 'q' || c == 'w' || c == 'e' || c == 'a' || c == 's' || c == 'd'
}

/// What filtering a string down to the pattern alphabet leaves, in order.
pub open spec fn restricted(s: Seq<char>) -> Seq<char> {
    s.filter(|c: char| is_pattern_symbol(c))
}

proof fn lemma_restricted_step(s: Seq<char>, i: int)
    requires
        0 <= i < s.len(),
    ensures
        restricted(s.take(i + 1)) == restricted(s.take(i)) + if is_pattern_symbol(s[i]) {
            seq![s[i]]
        } else {
            Seq::<char>::empty()
        },
{
    reveal(Seq::filter);
    assert(s.take(i + 1).drop_last() =~= s.take(i));
    assert(s.take(i + 1).last() == s[i]);
    if is_pattern_symbol(s[i]) {
        assert(restricted(s.take(i + 1)) =~= restricted(s.take(i)) + seq![s[i]]);
    } else {
        assert(restricted(s.take(i + 1)) =~= restricted(s.take(i)) + Seq::<char>::empty());
    }
}

/// Filter an externally supplied string to the pattern alphabet, keeping
/// the surviving symbols in their original order.
pub fn restrict_to_alphabet(s: &str) -> (out: String)
    ensures
        out@ == restricted(s@),
{
    let n = s.unicode_len();
    let mut out = String::new();
    let mut i: usize = 0;
    while i < n
        invariant
            n == s@.len(),
            i <= n,
            out@ == restricted(s@.take(i as int)),
        decreases n - i,
    {
        let c = s.get_char(i);
        proof {
            lemma_restricted_step(s@, i as int);
            reveal_strlit("q");
            reveal_strlit("w");
            reveal_strlit("e");
            reveal_strlit("a");
            reveal_strlit("s");
            reveal_strlit("d");
        }
        if c == 'q' {
            out.append("q");
        } else if c == 'w' {
            out.append("w");
        } else if c == 'e' {
            out.append("e");
        } else if c == 'a' {
            out.append("a");
        } else if c == 's' {
            out.append("s");
        } else if c == 'd' {
            out.append("d");
        }
        proof {
            if is_pattern_symbol(s@[i as int]) {
                assert(out@ =~= restricted(s@.take(i as int)) + seq![s@[i as int]]);
            } else {
                assert(out@ =~= restricted(s@.take(i as int)));
            }
        }
        i = i + 1;
    }
    proof {
        assert(s@.take(n as int) =~= s@);
    }
    out
}

/// Draw a fresh pattern: a length uniform in `[1, 32]`, then each symbol
/// uniform over the six-symbol alphabet.
pub fn generate_pattern() -> (p: String)
    ensures
        1 <= p@.len() <= 32,
        forall|i: int| 0 <= i < p@.len() ==> is_pattern_symbol(#[trigger] p@[i]),
{
    let len = 1 + rand_u32_below(32);
    let mut out = String::new();
    let mut i: u32 = 0;
    while i < len
        invariant
            i <= len,
            out@.len() == i,
            forall|j: int| 0 <= j < out@.len() ==> is_pattern_symbol(#[trigger] out@[j]),
        decreases len - i,
    {
        let k = rand_u32_below(6);
        proof {
            reveal_strlit("q");
            reveal_strlit("w");
            reveal_strlit("e");
            reveal_strlit("a");
            reveal_strlit("s");
            reveal_strlit("d");
        }
        if k == 0 {
            out.append("q");
        } else if k == 1 {
            out.append("w");
        } else if k == 2 {
            out.append("e");
        } else if k == 3 {
            out.append("a");
        } else if k == 4 {
            out.append("s");
        } else {
            out.append("d");
        }
        i = i + 1;
    }
    out
}

/// Law: filtering to the pattern alphabet is a no-op on a string whose
/// symbols are already all in the alphabet.
pub proof fn lemma_restrict_noop(s: Seq<char>)
    requires
        forall|i: int| 0 <= i < s.len() ==> is_pattern_symbol(#[trigger] s[i]),
    ensures
        restricted(s) == s,
    decreases s.len(),
{
    reveal(Seq::filter);
    if s.len() == 0 {
        assert(restricted(s) =~= s);
    } else {
        lemma_restrict_noop(s.drop_last());
        assert(restricted(s) =~= s);
    }
}

/// Law: filtering to the pattern alphabet is idempotent.
pub proof fn lemma_restrict_idempotent(s: Seq<char>)
    ensures
        restricted(restricted(s)) == restricted(s),
{
    assert forall|i: int| 0 <= i < restricted(s).len() implies is_pattern_symbol(
        #[trigger] restricted(s)[i],
    ) by {
        s.lemma_filter_pred(|c: char| is_pattern_symbol(c), i);
    }
    lemma_restrict_noop(restricted(s));
}

} // verus!
