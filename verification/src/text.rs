use vstd::prelude::*;
use vstd::utf8::{encode_utf8, encode_utf8_decode_utf8};

verus! {

/// Lexicographic order of byte strings: the first byte that differs decides,
/// and a prefix comes before what it is a prefix of.
pub open spec fn lex_le(a: Seq<u8>, b: Seq<u8>) -> bool
    decreases a.len(),
{
    if a.len() == 0 {
        true
    } else if b.len() == 0 {
        false
    } else if a[0] != b[0] {
        a[0] < b[0]
    } else {
        lex_le(a.skip(1), b.skip(1))
    }
}

/// The order of texts: that of their UTF-8 encodings, byte by byte.
pub open spec fn text_le(a: Seq<char>, b: Seq<char>) -> bool {
    lex_le(encode_utf8(a), encode_utf8(b))
}

pub proof fn lemma_lex_le_reflexive(a: Seq<u8>)
    ensures
        lex_le(a, a),
    decreases a.len(),
{
    if a.len() > 0 {
        lemma_lex_le_reflexive(a.skip(1));
    }
}

pub proof fn lemma_lex_le_total(a: Seq<u8>, b: Seq<u8>)
    ensures
        lex_le(a, b) || lex_le(b, a),
    decreases a.len(),
{
    if a.len() > 0 && b.len() > 0 && a[0] == b[0] {
        lemma_lex_le_total(a.skip(1), b.skip(1));
    }
}

pub proof fn lemma_lex_le_transitive(a: Seq<u8>, b: Seq<u8>, c: Seq<u8>)
    requires
        lex_le(a, b),
        lex_le(b, c),
    ensures
        lex_le(a, c),
    decreases a.len(),
{
    if a.len() > 0 && b.len() > 0 && c.len() > 0 && a[0] == b[0] && b[0] == c[0] {
        lemma_lex_le_transitive(a.skip(1), b.skip(1), c.skip(1));
    }
}

pub proof fn lemma_lex_le_antisymmetric(a: Seq<u8>, b: Seq<u8>)
    requires
        lex_le(a, b),
        lex_le(b, a),
    ensures
        a == b,
    decreases a.len(),
{
    if a.len() > 0 && b.len() > 0 {
        lemma_lex_le_antisymmetric(a.skip(1), b.skip(1));
        assert(a =~= seq![a[0]] + a.skip(1));
        assert(b =~= seq![b[0]] + b.skip(1));
    } else {
        assert(a =~= b);
    }
}

/// Texts are ordered totally: any two compare, the order is transitive, and
/// two texts that come before each other are one text.
pub proof fn lemma_text_le_order(a: Seq<char>, b: Seq<char>, c: Seq<char>)
    ensures
        text_le(a, a),
        text_le(a, b) || text_le(b, a),
        text_le(a, b) && text_le(b, c) ==> text_le(a, c),
        text_le(a, b) && text_le(b, a) ==> a == b,
{
    lemma_lex_le_reflexive(encode_utf8(a));
    lemma_lex_le_total(encode_utf8(a), encode_utf8(b));
    if text_le(a, b) && text_le(b, c) {
        lemma_lex_le_transitive(encode_utf8(a), encode_utf8(b), encode_utf8(c));
    }
    if text_le(a, b) && text_le(b, a) {
        lemma_lex_le_antisymmetric(encode_utf8(a), encode_utf8(b));
        lemma_encoding_injective(a, b);
    }
}

/// Two texts with one encoding are one text.
pub proof fn lemma_encoding_injective(a: Seq<char>, b: Seq<char>)
    requires
        encode_utf8(a) == encode_utf8(b),
    ensures
        a == b,
{
    encode_utf8_decode_utf8(a);
    encode_utf8_decode_utf8(b);
}

/// Whether two texts are the same.
pub fn str_eq(a: &str, b: &str) -> (same: bool)
    ensures
        same == (a@ == b@),
{
    let left = a.as_bytes();
    let right = b.as_bytes();
    if left.len() != right.len() {
        return false;
    }
    let mut i: usize = 0;
    while i < left.len()
        invariant
            i <= left.len() == right.len(),
            left@ == encode_utf8(a@),
            right@ == encode_utf8(b@),
            left@.take(i as int) == right@.take(i as int),
        decreases left.len() - i,
    {
        if left[i] != right[i] {
            return false;
        }
        assert(left@.take(i + 1) =~= left@.take(i as int).push(left@[i as int]));
        assert(right@.take(i + 1) =~= right@.take(i as int).push(right@[i as int]));
        i = i + 1;
    }
    proof {
        assert(left@ =~= left@.take(i as int));
        assert(right@ =~= right@.take(i as int));
        lemma_encoding_injective(a@, b@);
    }
    true
}

/// Whether `a` comes before `b` in the order of texts, or is the same text.
pub fn str_le(a: &str, b: &str) -> (before: bool)
    ensures
        before == text_le(a@, b@),
{
    let left = a.as_bytes();
    let right = b.as_bytes();
    let mut i: usize = 0;
    assert(left@.skip(0) =~= left@ && right@.skip(0) =~= right@);
    while i < left.len() && i < right.len()
        invariant
            i <= left.len(),
            i <= right.len(),
            left@ == encode_utf8(a@),
            right@ == encode_utf8(b@),
            lex_le(left@, right@) == lex_le(left@.skip(i as int), right@.skip(i as int)),
        decreases left.len() - i,
    {
        if left[i] != right[i] {
            return left[i] < right[i];
        }
        assert(left@.skip(i as int).skip(1) =~= left@.skip(i + 1));
        assert(right@.skip(i as int).skip(1) =~= right@.skip(i + 1));
        i = i + 1;
    }
    i == left.len()
}

/// `text` with every occurrence of `from` replaced by `to`, found from left
/// to right, each search going on behind the occurrence before it.
pub open spec fn replaced(text: Seq<char>, from: Seq<char>, to: Seq<char>) -> Seq<char>
    decreases text.len(),
{
    if from.len() == 0 || text.len() < from.len() {
        text
    } else if text.take(from.len() as int) == from {
        to + replaced(text.skip(from.len() as int), from, to)
    } else {
        seq![text[0]] + replaced(text.skip(1), from, to)
    }
}

/// Whether `from` stands in `text` at position `at`.
pub open spec fn stands_at(text: Seq<char>, from: Seq<char>, at: int) -> bool {
    &&& 0 <= at
    &&& at + from.len() <= text.len()
    &&& text.subrange(at, at + from.len()) == from
}

/// A text that ends in `from`, and holds it nowhere before, has that ending
/// exchanged for `to`.
pub proof fn lemma_replaced_ending(head: Seq<char>, from: Seq<char>, to: Seq<char>)
    requires
        from.len() > 0,
        forall|at: int| 0 <= at < head.len() ==> !stands_at(head + from, from, at),
    ensures
        replaced(head + from, from, to) == head + to,
    decreases head.len(),
{
    let text = head + from;
    if head.len() == 0 {
        assert(text.take(from.len() as int) =~= from);
        assert(text.skip(from.len() as int) =~= Seq::<char>::empty());
        assert(replaced(Seq::<char>::empty(), from, to) == Seq::<char>::empty());
        assert(to + Seq::<char>::empty() =~= head + to);
    } else {
        assert(!stands_at(text, from, 0));
        assert(text.take(from.len() as int) =~= text.subrange(0, 0 + from.len() as int));
        let rest = head.skip(1);
        assert(text.skip(1) =~= rest + from);
        assert forall|at: int| 0 <= at < rest.len() implies !stands_at(rest + from, from, at) by {
            assert(!stands_at(text, from, at + 1));
            assert((rest + from).subrange(at, at + from.len()) =~= text.subrange(
                at + 1,
                at + 1 + from.len(),
            ));
            assert(at + from.len() <= (rest + from).len());
        }
        lemma_replaced_ending(rest, from, to);
        assert(seq![text[0]] + (rest + to) =~= head + to);
    }
}

/// A text that holds `from` nowhere stays as it is.
pub proof fn lemma_replaced_nothing(text: Seq<char>, from: Seq<char>, to: Seq<char>)
    requires
        forall|at: int| 0 <= at < text.len() ==> !stands_at(text, from, at),
    ensures
        replaced(text, from, to) == text,
    decreases text.len(),
{
    if from.len() > 0 && text.len() >= from.len() {
        assert(!stands_at(text, from, 0));
        assert(text.take(from.len() as int) =~= text.subrange(0, 0 + from.len() as int));
        let rest = text.skip(1);
        assert forall|at: int| 0 <= at < rest.len() implies !stands_at(rest, from, at) by {
            assert(!stands_at(text, from, at + 1));
            if at + from.len() <= rest.len() {
                assert(rest.subrange(at, at + from.len()) =~= text.subrange(
                    at + 1,
                    at + 1 + from.len(),
                ));
            }
        }
        lemma_replaced_nothing(rest, from, to);
        assert(seq![text[0]] + rest =~= text);
    }
}

/// Calls `str::replace`, which copies the text and puts `to` in the place of
/// every match of `from`; matches are found from the left and do not overlap.
#[verifier::external_body]
pub(crate) fn replace_all(text: &str, from: &str, to: &str) -> (result: String)
    requires
        from@.len() > 0,
    ensures
        result@ == replaced(text@, from@, to@),
{
    text.replace(from, to)
}

} // verus!
