//! Keys as sequences of characters: the code points that children are
//! filed under, and the facts about prefixes that the proofs rest on.

use vstd::prelude::*;

verus! {

broadcast use vstd::string::group_string_axioms;

/// The code point under which a child for `c` is filed.
pub open spec fn code(c: char) -> u32 {
    c as u32
}

/// Distinct characters have distinct code points.
pub proof fn lemma_code_injective(a: char, b: char)
    ensures
        code(a) == code(b) <==> a == b,
{
}

/// The code point of `c`, as the key of a child map.
pub fn code_of(c: char) -> (k: u32)
    ensures
        k == code(c),
{
    c as u32
}

/// The characters of `key`, in order.
pub fn key_chars(key: &str) -> (chars: Vec<char>)
    ensures
        chars@ == key@,
{
    let mut chars: Vec<char> = Vec::new();
    for c in it: key.chars()
        invariant
            it.seq() == key@,
            chars@ == key@.take(it.index()),
    {
        chars.push(c);
    }
    chars
}

/// Whether `k` is the code point of some character.
pub open spec fn is_code(k: u32) -> bool {
    exists|c: char| code(c) == k
}

/// Two non-empty sequences with one head and one tail are one sequence.
pub proof fn lemma_same_head_and_tail(a: Seq<char>, b: Seq<char>)
    requires
        a.len() > 0,
        b.len() > 0,
        a[0] == b[0],
        a.drop_first() == b.drop_first(),
    ensures
        a == b,
{
    assert(a =~= seq![a[0]] + a.drop_first());
    assert(b =~= seq![b[0]] + b.drop_first());
}

/// A non-empty sequence is a prefix of another exactly when the heads agree
/// and its tail is a prefix of the other's tail.
pub proof fn lemma_prefix_step(p: Seq<char>, key: Seq<char>)
    requires
        p.len() > 0,
        key.len() > 0,
    ensures
        p.is_prefix_of(key) == (p[0] == key[0] && p.drop_first().is_prefix_of(key.drop_first())),
{
    let pt = p.drop_first();
    let kt = key.drop_first();
    if p.is_prefix_of(key) {
        assert(p[0] == key.subrange(0, p.len() as int)[0]);
        assert forall|i: int| 0 <= i < pt.len() implies pt[i] == kt.subrange(
            0,
            pt.len() as int,
        )[i] by {
            assert(pt[i] == p[i + 1]);
            assert(p[i + 1] == key.subrange(0, p.len() as int)[i + 1]);
        }
        assert(pt =~= kt.subrange(0, pt.len() as int));
    }
    if p[0] == key[0] && pt.is_prefix_of(kt) {
        assert forall|i: int| 0 <= i < p.len() implies p[i] == key.subrange(
            0,
            p.len() as int,
        )[i] by {
            if i > 0 {
                assert(p[i] == pt[i - 1]);
                assert(pt[i - 1] == kt.subrange(0, pt.len() as int)[i - 1]);
            }
        }
        assert(p =~= key.subrange(0, p.len() as int));
    }
}

} // verus!
