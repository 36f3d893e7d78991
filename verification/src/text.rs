//! Comparisons on raw bytes and on the UTF-8 form of text.
//!
//! Command-line tokens are byte strings that need not be valid text, so all
//! matching is done on bytes. Text that comes from option metadata is compared
//! through its UTF-8 encoding, which is what `str` ordering and equality do.

use vstd::prelude::*;
use vstd::utf8::*;

verus! {

/// Strict lexicographic order on byte strings: the order of `[u8]` and, through
/// the UTF-8 encoding, of `str`.
pub open spec fn lex_less(a: Seq<u8>, b: Seq<u8>) -> bool
    decreases a.len(),
{
    if b.len() == 0 {
        false
    } else if a.len() == 0 {
        true
    } else if a[0] != b[0] {
        a[0] < b[0]
    } else {
        lex_less(a.skip(1), b.skip(1))
    }
}

/// Strict order on text: lexicographic on the UTF-8 encodings.
pub open spec fn text_less(a: Seq<char>, b: Seq<char>) -> bool {
    lex_less(encode_utf8(a), encode_utf8(b))
}

/// `lex_less` never holds of a byte string and itself.
pub proof fn lemma_lex_less_irreflexive(a: Seq<u8>)
    ensures
        !lex_less(a, a),
    decreases a.len(),
{
    if a.len() > 0 {
        lemma_lex_less_irreflexive(a.skip(1));
    }
}

/// `lex_less` never holds in both directions.
pub proof fn lemma_lex_less_asymmetric(a: Seq<u8>, b: Seq<u8>)
    requires
        lex_less(a, b),
    ensures
        !lex_less(b, a),
    decreases a.len(),
{
    if a.len() > 0 && b.len() > 0 && a[0] == b[0] {
        lemma_lex_less_asymmetric(a.skip(1), b.skip(1));
    }
}

/// `lex_less` is transitive.
pub proof fn lemma_lex_less_transitive(a: Seq<u8>, b: Seq<u8>, c: Seq<u8>)
    requires
        lex_less(a, b),
        lex_less(b, c),
    ensures
        lex_less(a, c),
    decreases a.len(),
{
    if a.len() > 0 && b.len() > 0 && c.len() > 0 && a[0] == b[0] && b[0] == c[0] {
        lemma_lex_less_transitive(a.skip(1), b.skip(1), c.skip(1));
    }
}

/// Two different byte strings are ordered one way or the other.
pub proof fn lemma_lex_less_total(a: Seq<u8>, b: Seq<u8>)
    requires
        a != b,
    ensures
        lex_less(a, b) || lex_less(b, a),
    decreases a.len(),
{
    if a.len() > 0 && b.len() > 0 && a[0] == b[0] {
        if a.skip(1) == b.skip(1) {
            assert(a =~= seq![a[0]] + a.skip(1));
            assert(b =~= seq![b[0]] + b.skip(1));
        }
        lemma_lex_less_total(a.skip(1), b.skip(1));
    } else if a.len() == 0 && b.len() == 0 {
        assert(a =~= b);
    }
}

/// Different texts have different UTF-8 encodings.
pub proof fn lemma_utf8_injective(a: Seq<char>, b: Seq<char>)
    requires
        encode_utf8(a) == encode_utf8(b),
    ensures
        a == b,
{
    encode_utf8_decode_utf8(a);
    encode_utf8_decode_utf8(b);
}

/// Different texts are ordered one way or the other.
pub proof fn lemma_text_less_total(a: Seq<char>, b: Seq<char>)
    requires
        a != b,
    ensures
        text_less(a, b) || text_less(b, a),
{
    if encode_utf8(a) == encode_utf8(b) {
        lemma_utf8_injective(a, b);
    }
    lemma_lex_less_total(encode_utf8(a), encode_utf8(b));
}

/// Whether two byte strings are equal.
pub fn bytes_equal(a: &[u8], b: &[u8]) -> (same: bool)
    ensures
        same == (a@ == b@),
{
    if a.len() != b.len() {
        return false;
    }
    let mut i: usize = 0;
    while i < a.len()
        invariant
            i <= a.len(),
            a.len() == b.len(),
            forall|j: int| 0 <= j < i ==> a@[j] == b@[j],
        decreases a.len() - i,
    {
        if a[i] != b[i] {
            return false;
        }
        i += 1;
    }
    assert(a@ =~= b@);
    true
}

/// Whether `bytes` begins with `head`.
pub fn bytes_start_with(bytes: &[u8], head: &[u8]) -> (starts: bool)
    ensures
        starts == head@.is_prefix_of(bytes@),
{
    if head.len() > bytes.len() {
        return false;
    }
    let mut i: usize = 0;
    while i < head.len()
        invariant
            i <= head.len(),
            head.len() <= bytes.len(),
            forall|j: int| 0 <= j < i ==> head@[j] == bytes@[j],
        decreases head.len() - i,
    {
        if head[i] != bytes[i] {
            assert(bytes@.subrange(0, head@.len() as int)[i as int] == bytes@[i as int]);
            return false;
        }
        i += 1;
    }
    assert(head@ =~= bytes@.subrange(0, head@.len() as int));
    true
}

/// Whether `a` comes strictly before `b` in lexicographic order.
pub fn bytes_precede(a: &[u8], b: &[u8]) -> (before: bool)
    ensures
        before == lex_less(a@, b@),
{
    let mut i: usize = 0;
    assert(a@.skip(0) =~= a@ && b@.skip(0) =~= b@);
    while i < a.len() && i < b.len()
        invariant
            i <= a.len(),
            i <= b.len(),
            lex_less(a@, b@) == lex_less(a@.skip(i as int), b@.skip(i as int)),
        decreases a.len() - i,
    {
        let ghost ra = a@.skip(i as int);
        let ghost rb = b@.skip(i as int);
        assert(ra[0] == a@[i as int] && rb[0] == b@[i as int]);
        if a[i] != b[i] {
            return a[i] < b[i];
        }
        assert(ra.skip(1) =~= a@.skip(i + 1));
        assert(rb.skip(1) =~= b@.skip(i + 1));
        i += 1;
    }
    assert(a@.skip(i as int).len() == a.len() - i);
    assert(b@.skip(i as int).len() == b.len() - i);
    i < b.len()
}

/// Whether `bytes` ends with `tail`.
pub fn bytes_end_with(bytes: &[u8], tail: &[u8]) -> (ends: bool)
    ensures
        ends == tail@.is_suffix_of(bytes@),
{
    if tail.len() > bytes.len() {
        return false;
    }
    let shift: usize = bytes.len() - tail.len();
    let mut i: usize = 0;
    while i < tail.len()
        invariant
            i <= tail.len(),
            shift + tail.len() == bytes.len(),
            forall|j: int| 0 <= j < i ==> tail@[j] == bytes@[shift + j],
        decreases tail.len() - i,
    {
        if tail[i] != bytes[shift + i] {
            assert(bytes@.subrange(shift as int, bytes@.len() as int)[i as int] == bytes@[shift
                + i]);
            return false;
        }
        i += 1;
    }
    assert(tail@ =~= bytes@.subrange(shift as int, bytes@.len() as int));
    true
}

/// Whether two texts are the same.
pub fn same_text(a: &str, b: &str) -> (same: bool)
    ensures
        same == (a@ == b@),
{
    let same = bytes_equal(a.as_bytes(), b.as_bytes());
    proof {
        if same {
            lemma_utf8_injective(a@, b@);
        }
    }
    same
}

/// Whether text `a` sorts strictly before text `b`.
pub fn text_precedes(a: &str, b: &str) -> (before: bool)
    ensures
        before == text_less(a@, b@),
{
    bytes_precede(a.as_bytes(), b.as_bytes())
}

/// Where a text goes into a sorted list: in front of the first text, from
/// index `from` on, that it is less than.
pub open spec fn text_position(list: Seq<Seq<char>>, text: Seq<char>, from: int) -> int
    decreases list.len() - from,
{
    if from < 0 || from >= list.len() {
        list.len() as int
    } else if text_less(text, list[from]) {
        from
    } else {
        text_position(list, text, from + 1)
    }
}

/// A list of texts sorted into ascending order.
pub open spec fn sort_texts(list: Seq<Seq<char>>) -> Seq<Seq<char>>
    decreases list.len(),
{
    if list.len() == 0 {
        seq![]
    } else {
        let sorted = sort_texts(list.drop_last());
        sorted.insert(text_position(sorted, list.last(), 0), list.last())
    }
}

/// The texts of a list of strings.
pub open spec fn texts(list: Seq<String>) -> Seq<Seq<char>> {
    list.map_values(|text: String| text@)
}

/// The position found by `text_position` lies in the list; nothing in front
/// of it is greater than the text, and what stands at it is.
pub proof fn lemma_text_position(list: Seq<Seq<char>>, text: Seq<char>, from: int)
    requires
        0 <= from <= list.len(),
    ensures
        from <= text_position(list, text, from) <= list.len(),
        forall|k: int|
            from <= k < text_position(list, text, from) ==> !text_less(text, #[trigger] list[k]),
        text_position(list, text, from) < list.len() ==> text_less(
            text,
            list[text_position(list, text, from)],
        ),
    decreases list.len() - from,
{
    if from < list.len() && !text_less(text, list[from]) {
        lemma_text_position(list, text, from + 1);
    }
}

/// Sorting keeps the number of texts.
pub proof fn lemma_sort_texts_len(list: Seq<Seq<char>>)
    ensures
        sort_texts(list).len() == list.len(),
    decreases list.len(),
{
    if list.len() > 0 {
        lemma_sort_texts_len(list.drop_last());
        lemma_text_position(sort_texts(list.drop_last()), list.last(), 0);
    }
}

/// In a sorted list no text is less than one that stands in front of it.
pub proof fn lemma_sort_texts_ascending(list: Seq<Seq<char>>)
    ensures
        forall|i: int, j: int|
            0 <= i < j < sort_texts(list).len() ==> !text_less(
                #[trigger] sort_texts(list)[j],
                #[trigger] sort_texts(list)[i],
            ),
    decreases list.len(),
{
    if list.len() > 0 {
        let sorted = sort_texts(list.drop_last());
        let text = list.last();
        let at = text_position(sorted, text, 0);
        lemma_sort_texts_ascending(list.drop_last());
        lemma_text_position(sorted, text, 0);
        let result = sorted.insert(at, text);
        assert forall|i: int, j: int| 0 <= i < j < result.len() implies !text_less(
            #[trigger] result[j],
            #[trigger] result[i],
        ) by {
            if i == at {
                let later = sorted[j - 1];
                if text_less(later, text) {
                    lemma_lex_less_transitive(
                        encode_utf8(later),
                        encode_utf8(text),
                        encode_utf8(sorted[at]),
                    );
                    if j - 1 == at {
                        lemma_lex_less_irreflexive(encode_utf8(later));
                    }
                }
            } else if j == at {
                assert(!text_less(text, sorted[i]));
            } else {
                let a = if i < at { i } else { i - 1 };
                let b = if j < at { j } else { j - 1 };
                assert(result[i] == sorted[a] && result[j] == sorted[b]);
            }
        }
    }
}

/// The list sorted into ascending order.
pub fn sorted_texts(list: &Vec<String>) -> (sorted: Vec<String>)
    ensures
        texts(sorted@) == sort_texts(texts(list@)),
        sorted@.len() == list@.len(),
        forall|i: int, j: int|
            0 <= i < j < sorted@.len() ==> !text_less(
                #[trigger] texts(sorted@)[j],
                #[trigger] texts(sorted@)[i],
            ),
{
    proof {
        lemma_sort_texts_len(texts(list@));
        lemma_sort_texts_ascending(texts(list@));
    }
    let ghost views = texts(list@);
    let mut sorted: Vec<String> = Vec::new();
    let mut i: usize = 0;
    assert(views.subrange(0, 0) =~= seq![]);
    while i < list.len()
        invariant
            i <= list@.len(),
            views == texts(list@),
            texts(sorted@) == sort_texts(views.subrange(0, i as int)),
        decreases list@.len() - i,
    {
        let ghost before = texts(sorted@);
        let text = list[i].clone();
        let mut at: usize = 0;
        while at < sorted.len() && !text_precedes(text.as_str(), sorted[at].as_str())
            invariant
                at <= sorted@.len(),
                before == texts(sorted@),
                text_position(before, text@, 0) == text_position(before, text@, at as int),
            decreases sorted@.len() - at,
        {
            assert(before[at as int] == sorted@[at as int]@);
            at += 1;
        }
        proof {
            if at < sorted@.len() {
                assert(before[at as int] == sorted@[at as int]@);
            }
            let prefix = views.subrange(0, i + 1);
            assert(prefix.drop_last() =~= views.subrange(0, i as int));
            assert(prefix.last() == text@);
        }
        sorted.insert(at, text);
        assert(texts(sorted@) =~= before.insert(at as int, text@));
        i += 1;
    }
    assert(views.subrange(0, i as int) =~= views);
    sorted
}

} // verus!
