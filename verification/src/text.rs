//! Text in byte strings.

use vstd::prelude::*;

use crate::codec;

verus! {

/// Calls `std::str::from_utf8`: gives the text that `bytes` encode exactly when
/// they are valid UTF-8, and its UTF-8 encoding is `bytes`.
#[verifier::external_body]
pub(crate) fn text_from_utf8(bytes: &[u8]) -> (result: Option<&str>)
    ensures
        result is Some <==> vstd::utf8::valid_utf8(bytes@),
        result matches Some(text) ==> vstd::utf8::encode_utf8(text@) == bytes@,
{
    std::str::from_utf8(bytes).ok()
}

/// The text that `bytes` encode.
pub fn decode_text(bytes: &[u8]) -> (result: Option<&str>)
    ensures
        match result {
            Some(text) => vstd::utf8::valid_utf8(bytes@) && text@ == vstd::utf8::decode_utf8(
                bytes@,
            ),
            None => !vstd::utf8::valid_utf8(bytes@),
        },
{
    let result = text_from_utf8(bytes);
    proof {
        if let Some(text) = result {
            vstd::utf8::encode_utf8_decode_utf8(text@);
        }
    }
    result
}

/// Whether two texts are the same.
pub fn same(left: &str, right: &str) -> (result: bool)
    ensures
        result == (left@ == right@),
{
    proof {
        vstd::utf8::encode_utf8_decode_utf8(left@);
        vstd::utf8::encode_utf8_decode_utf8(right@);
    }
    codec::equal(left.as_bytes(), right.as_bytes())
}

/// Whether `left` comes before `right` in the order of their bytes, where both
/// are the same up to position `from`.
pub open spec fn bytes_precede(left: Seq<u8>, right: Seq<u8>, from: int) -> bool
    decreases left.len() - from,
{
    if from >= right.len() {
        false
    } else if from >= left.len() {
        true
    } else if left[from] != right[from] {
        left[from] < right[from]
    } else {
        bytes_precede(left, right, from + 1)
    }
}

/// The order of texts: that of their UTF-8 bytes.
pub open spec fn text_precedes(left: Seq<char>, right: Seq<char>) -> bool {
    bytes_precede(vstd::utf8::encode_utf8(left), vstd::utf8::encode_utf8(right), 0)
}

/// Whether `left` comes before `right`.
pub fn precedes(left: &str, right: &str) -> (result: bool)
    ensures
        result == text_precedes(left@, right@),
{
    let left_bytes = left.as_bytes();
    let right_bytes = right.as_bytes();
    let mut i: usize = 0;
    while i < left_bytes.len() && i < right_bytes.len()
        invariant
            i <= left_bytes@.len(),
            i <= right_bytes@.len(),
            left_bytes@ == vstd::utf8::encode_utf8(left@),
            right_bytes@ == vstd::utf8::encode_utf8(right@),
            bytes_precede(left_bytes@, right_bytes@, 0) == bytes_precede(
                left_bytes@,
                right_bytes@,
                i as int,
            ),
        decreases left_bytes@.len() - i,
    {
        if left_bytes[i] != right_bytes[i] {
            return left_bytes[i] < right_bytes[i];
        }
        i += 1;
    }
    i < right_bytes.len()
}

/// Of two different texts one comes before the other.
pub proof fn lemma_order_is_total(left: Seq<char>, right: Seq<char>)
    requires
        left != right,
    ensures
        text_precedes(left, right) || text_precedes(right, left),
{
    let a = vstd::utf8::encode_utf8(left);
    let b = vstd::utf8::encode_utf8(right);
    vstd::utf8::encode_utf8_decode_utf8(left);
    vstd::utf8::encode_utf8_decode_utf8(right);
    assert(a != b);
    lemma_bytes_total(a, b, 0);
}

proof fn lemma_bytes_total(left: Seq<u8>, right: Seq<u8>, from: int)
    requires
        0 <= from <= left.len(),
        from <= right.len(),
        left != right,
        forall|i: int| 0 <= i < from ==> left[i] == right[i],
    ensures
        bytes_precede(left, right, from) || bytes_precede(right, left, from),
    decreases left.len() - from,
{
    if from < left.len() && from < right.len() {
        if left[from] == right[from] {
            lemma_bytes_total(left, right, from + 1);
        }
    } else if from == left.len() && from == right.len() {
        assert(left =~= right);
    }
}

/// A text that comes before one that comes before a third comes before the third.
pub proof fn lemma_order_is_transitive(first: Seq<char>, second: Seq<char>, third: Seq<char>)
    requires
        text_precedes(first, second),
        text_precedes(second, third),
    ensures
        text_precedes(first, third),
{
    lemma_bytes_transitive(
        vstd::utf8::encode_utf8(first),
        vstd::utf8::encode_utf8(second),
        vstd::utf8::encode_utf8(third),
        0,
    );
}

proof fn lemma_bytes_transitive(first: Seq<u8>, second: Seq<u8>, third: Seq<u8>, from: int)
    requires
        0 <= from,
        bytes_precede(first, second, from),
        bytes_precede(second, third, from),
    ensures
        bytes_precede(first, third, from),
    decreases first.len() - from,
{
    if from < first.len() && from < second.len() && from < third.len() && first[from]
        == second[from] && second[from] == third[from] {
        lemma_bytes_transitive(first, second, third, from + 1);
    }
}

/// No text comes before itself.
pub proof fn lemma_order_is_strict(text: Seq<char>)
    ensures
        !text_precedes(text, text),
{
    lemma_bytes_strict(vstd::utf8::encode_utf8(text), 0);
}

proof fn lemma_bytes_strict(bytes: Seq<u8>, from: int)
    requires
        0 <= from,
    ensures
        !bytes_precede(bytes, bytes, from),
    decreases bytes.len() - from,
{
    if from < bytes.len() {
        lemma_bytes_strict(bytes, from + 1);
    }
}

/// Whether `left` and `right` are the same in the first `count` bytes, and `left` has
/// a smaller byte behind them or ends there, where `right` goes on.
pub open spec fn differs_at(left: Seq<u8>, right: Seq<u8>, count: int) -> bool {
    &&& 0 <= count <= left.len()
    &&& count < right.len()
    &&& left.take(count) == right.take(count)
    &&& count == left.len() || left[count] < right[count]
}

/// A text comes before another where its bytes are the start of the other's, or are
/// smaller at the first place where they differ.
pub proof fn texts_are_ordered_by_their_bytes(left: Seq<char>, right: Seq<char>)
    ensures
        text_precedes(left, right) <==> exists|count: int| #[trigger]
            differs_at(vstd::utf8::encode_utf8(left), vstd::utf8::encode_utf8(right), count),
{
    let a = vstd::utf8::encode_utf8(left);
    let b = vstd::utf8::encode_utf8(right);
    if text_precedes(left, right) {
        assert(a.take(0) =~= b.take(0));
        lemma_first_difference(a, b, 0);
    }
    if exists|count: int| #[trigger] differs_at(a, b, count) {
        let count = choose|count: int| #[trigger] differs_at(a, b, count);
        lemma_precedes_from(a, b, count, 0);
    }
}

proof fn lemma_first_difference(left: Seq<u8>, right: Seq<u8>, from: int)
    requires
        0 <= from <= left.len(),
        from <= right.len(),
        left.take(from) == right.take(from),
        bytes_precede(left, right, from),
    ensures
        exists|count: int| #[trigger] differs_at(left, right, count),
    decreases left.len() - from,
{
    if from < left.len() && left[from] == right[from] {
        assert(left.take(from + 1) =~= left.take(from).push(left[from]));
        assert(right.take(from + 1) =~= right.take(from).push(right[from]));
        lemma_first_difference(left, right, from + 1);
    } else {
        assert(differs_at(left, right, from));
    }
}

proof fn lemma_precedes_from(left: Seq<u8>, right: Seq<u8>, count: int, from: int)
    requires
        differs_at(left, right, count),
        0 <= from <= count,
    ensures
        bytes_precede(left, right, from),
    decreases count - from,
{
    if from < count {
        assert(left.take(count)[from] == left[from]);
        assert(right.take(count)[from] == right[from]);
        lemma_precedes_from(left, right, count, from + 1);
    }
}

} // verus!
