//! Byte-level framing shared by every part of an encoded block.
//!
//! Everything on the wire is built from a single primitive, the *chunk*: an
//! eight-byte little-endian length followed by that many payload bytes.  A
//! *stream* is a run of chunks laid end to end, and a *word array* is a run of
//! eight-byte little-endian integers.

use vstd::bytes::*;
use vstd::prelude::*;
use vstd::slice::*;

verus! {

broadcast use vstd::slice::group_slice_axioms;

/// The bytes of one chunk: the payload's length, then the payload.
pub open spec fn chunk_bytes(payload: Seq<u8>) -> Seq<u8> {
    spec_u64_to_le_bytes(payload.len() as u64) + payload
}

/// Reads one chunk from the front of `bytes`: its payload and the number of
/// bytes it occupies, or `None` when `bytes` does not start with a whole chunk.
pub open spec fn parse_chunk(bytes: Seq<u8>) -> Option<(Seq<u8>, int)> {
    if bytes.len() < 8 {
        None
    } else {
        let n = spec_u64_from_le_bytes(bytes.subrange(0, 8)) as int;
        if bytes.len() - 8 < n {
            None
        } else {
            Some((bytes.subrange(8, 8 + n), 8 + n))
        }
    }
}

/// The bytes of a stream: each item as a chunk, in order.
pub open spec fn stream_bytes(items: Seq<Seq<u8>>) -> Seq<u8>
    decreases items.len(),
{
    if items.len() == 0 {
        Seq::empty()
    } else {
        stream_bytes(items.drop_last()) + chunk_bytes(items.last())
    }
}

/// Splits `bytes` into the chunks it is made of, or `None` when it is not a
/// whole number of chunks.
pub open spec fn parse_stream(bytes: Seq<u8>) -> Option<Seq<Seq<u8>>>
    decreases bytes.len(),
{
    if bytes.len() == 0 {
        Some(Seq::empty())
    } else {
        match parse_chunk(bytes) {
            None => None,
            Some((payload, used)) => match parse_stream(bytes.skip(used)) {
                None => None,
                Some(rest) => Some(seq![payload] + rest),
            },
        }
    }
}

/// The bytes of a word array: each word in little-endian order.
pub open spec fn words_bytes(words: Seq<u64>) -> Seq<u8>
    decreases words.len(),
{
    if words.len() == 0 {
        Seq::empty()
    } else {
        words_bytes(words.drop_last()) + spec_u64_to_le_bytes(words.last())
    }
}

/// The word held by the eight bytes at word index `i`.
pub open spec fn word_at(bytes: Seq<u8>, i: int) -> u64 {
    spec_u64_from_le_bytes(bytes.subrange(8 * i, 8 * i + 8))
}

/// Reads `bytes` as a word array, or `None` when its length is not a multiple
/// of eight.
pub open spec fn parse_words(bytes: Seq<u8>) -> Option<Seq<u64>> {
    if bytes.len() % 8 != 0 {
        None
    } else {
        Some(
            Seq::new(
                (bytes.len() / 8) as nat,
                |i: int| word_at(bytes, i),
            ),
        )
    }
}

/// A chunk parses back to its payload, whatever follows it.
pub proof fn lemma_chunk_round_trip(payload: Seq<u8>, tail: Seq<u8>)
    requires
        payload.len() <= u64::MAX,
    ensures
        parse_chunk(chunk_bytes(payload) + tail) == Some((payload, 8 + payload.len() as int)),
        chunk_bytes(payload).len() == 8 + payload.len(),
{
    lemma_auto_spec_u64_to_from_le_bytes();
    let all = chunk_bytes(payload) + tail;
    let head = spec_u64_to_le_bytes(payload.len() as u64);
    assert(all.subrange(0, 8) =~= head);
    assert(all.subrange(8, 8 + payload.len() as int) =~= payload);
}

/// A chunk is eight bytes longer than its payload.
pub proof fn lemma_chunk_len(payload: Seq<u8>)
    ensures
        chunk_bytes(payload).len() == 8 + payload.len(),
{
    lemma_auto_spec_u64_to_from_le_bytes();
}

/// Whatever `parse_chunk` accepts is the chunk of the payload it returns.
pub proof fn lemma_parse_chunk_exact(bytes: Seq<u8>)
    requires
        parse_chunk(bytes) is Some,
    ensures
        ({
            let (payload, used) = parse_chunk(bytes)->0;
            &&& 8 <= used <= bytes.len()
            &&& used == 8 + payload.len()
            &&& payload.len() <= u64::MAX
            &&& bytes.subrange(0, used) == chunk_bytes(payload)
        }),
{
    lemma_auto_spec_u64_to_from_le_bytes();
    let (payload, used) = parse_chunk(bytes)->0;
    let head = bytes.subrange(0, 8);
    assert(spec_u64_to_le_bytes(spec_u64_from_le_bytes(head)) == head);
    assert(bytes.subrange(0, used) =~= chunk_bytes(payload));
}

/// Appending an item to a stream appends its chunk; a stream's first chunk
/// can be split off its front.
pub proof fn lemma_stream_front(first: Seq<u8>, rest: Seq<Seq<u8>>)
    ensures
        stream_bytes(seq![first] + rest) == chunk_bytes(first) + stream_bytes(rest),
    decreases rest.len(),
{
    let all = seq![first] + rest;
    if rest.len() == 0 {
        assert(all.drop_last() =~= Seq::<Seq<u8>>::empty());
        assert(stream_bytes(all.drop_last()) =~= Seq::<u8>::empty());
        assert(stream_bytes(rest) =~= Seq::<u8>::empty());
        assert(stream_bytes(all) =~= chunk_bytes(first) + stream_bytes(rest));
    } else {
        lemma_stream_front(first, rest.drop_last());
        assert(all.drop_last() =~= seq![first] + rest.drop_last());
        assert(all.last() == rest.last());
        assert(stream_bytes(all) =~= chunk_bytes(first) + stream_bytes(rest));
    }
}

/// Every item of a stream, with its length prefix, fits inside the stream.
pub proof fn lemma_stream_item_bound(items: Seq<Seq<u8>>, i: int)
    requires
        0 <= i < items.len(),
    ensures
        8 + items[i].len() <= stream_bytes(items).len(),
    decreases items.len(),
{
    lemma_chunk_len(items.last());
    if i < items.len() - 1 {
        lemma_stream_item_bound(items.drop_last(), i);
    }
}

/// A stream parses back to its items.
pub proof fn lemma_stream_round_trip(items: Seq<Seq<u8>>)
    requires
        stream_bytes(items).len() <= u64::MAX,
    ensures
        parse_stream(stream_bytes(items)) == Some(items),
    decreases items.len(),
{
    if items.len() == 0 {
        assert(items =~= Seq::<Seq<u8>>::empty());
    } else {
        let first = items[0];
        let rest = items.skip(1);
        assert(items =~= seq![first] + rest);
        lemma_stream_front(first, rest);
        lemma_stream_item_bound(items, 0);
        lemma_chunk_round_trip(first, stream_bytes(rest));
        let bytes = stream_bytes(items);
        assert(bytes.skip(8 + first.len() as int) =~= stream_bytes(rest));
        lemma_stream_round_trip(rest);
    }
}

/// Whatever `parse_stream` accepts is the stream of the items it returns.
pub proof fn lemma_parse_stream_exact(bytes: Seq<u8>)
    requires
        parse_stream(bytes) is Some,
    ensures
        stream_bytes(parse_stream(bytes)->0) == bytes,
    decreases bytes.len(),
{
    if bytes.len() == 0 {
        assert(bytes =~= Seq::<u8>::empty());
    } else {
        let (payload, used) = parse_chunk(bytes)->0;
        lemma_parse_chunk_exact(bytes);
        let rest = parse_stream(bytes.skip(used))->0;
        lemma_parse_stream_exact(bytes.skip(used));
        lemma_stream_front(payload, rest);
        assert(bytes =~= bytes.subrange(0, used) + bytes.skip(used));
    }
}

/// A word array is eight bytes per word, and each word sits at its index.
pub proof fn lemma_words_layout(words: Seq<u64>)
    ensures
        words_bytes(words).len() == 8 * words.len(),
        forall|i: int| 0 <= i < words.len() ==> #[trigger] word_at(words_bytes(words), i) == words[i],
    decreases words.len(),
{
    lemma_auto_spec_u64_to_from_le_bytes();
    if words.len() > 0 {
        let front = words.drop_last();
        lemma_words_layout(front);
        let all = words_bytes(words);
        assert forall|i: int| 0 <= i < words.len() implies #[trigger] word_at(all, i)
            == words[i] by {
            if i < words.len() - 1 {
                assert(all.subrange(8 * i, 8 * i + 8) =~= words_bytes(front).subrange(
                    8 * i,
                    8 * i + 8,
                ));
                assert(word_at(words_bytes(front), i) == front[i]);
            } else {
                assert(all.subrange(8 * i, 8 * i + 8) =~= spec_u64_to_le_bytes(words.last()));
            }
        }
    }
}

/// A word array parses back to its words.
pub proof fn lemma_words_round_trip(words: Seq<u64>)
    ensures
        parse_words(words_bytes(words)) == Some(words),
{
    lemma_words_layout(words);
    let bytes = words_bytes(words);
    assert(bytes.len() / 8 == words.len());
    assert(parse_words(bytes)->0 =~= words);
}

/// Whatever `parse_words` accepts is the word array of the words it returns.
pub proof fn lemma_parse_words_exact(bytes: Seq<u8>)
    requires
        parse_words(bytes) is Some,
    ensures
        words_bytes(parse_words(bytes)->0) == bytes,
    decreases bytes.len(),
{
    lemma_auto_spec_u64_to_from_le_bytes();
    let words = parse_words(bytes)->0;
    if bytes.len() == 0 {
        assert(words =~= Seq::<u64>::empty());
        assert(bytes =~= Seq::<u8>::empty());
    } else {
        let n = bytes.len() - 8;
        let front = bytes.subrange(0, n);
        lemma_parse_words_exact(front);
        assert forall|i: int| 0 <= i < n / 8 implies #[trigger] word_at(front, i) == word_at(
            bytes,
            i,
        ) by {
            assert(front.subrange(8 * i, 8 * i + 8) =~= bytes.subrange(8 * i, 8 * i + 8));
        }
        assert(parse_words(front)->0 =~= words.drop_last());
        let tail = bytes.subrange(n, n + 8);
        assert(bytes.subrange(8 * (n / 8), 8 * (n / 8) + 8) =~= tail);
        assert(words.last() == word_at(bytes, n / 8));
        assert(spec_u64_to_le_bytes(words.last()) == tail);
        assert(bytes =~= front + tail);
    }
}

/// Appends a copy of `src` to `out`.
pub fn append_bytes(out: &mut Vec<u8>, src: &[u8])
    ensures
        final(out)@ == old(out)@ + src@,
{
    let mut i: usize = 0;
    while i < src.len()
        invariant
            i <= src.len(),
            out@ == old(out)@ + src@.take(i as int),
        decreases src.len() - i,
    {
        out.push(src[i]);
        i += 1;
        assert(src@.take(i as int) =~= src@.take(i - 1).push(src@[i - 1]));
    }
    assert(src@.take(src.len() as int) =~= src@);
}

/// Appends `word` to `out` in little-endian order.
pub fn write_word(out: &mut Vec<u8>, word: u64)
    ensures
        final(out)@ == old(out)@ + spec_u64_to_le_bytes(word),
{
    let mut bytes = u64_to_le_bytes(word);
    out.append(&mut bytes);
}

/// Appends `payload` to `out` as one chunk.
pub fn write_chunk(out: &mut Vec<u8>, payload: &[u8])
    ensures
        final(out)@ == old(out)@ + chunk_bytes(payload@),
{
    write_word(out, payload.len() as u64);
    append_bytes(out, payload);
    assert(out@ =~= old(out)@ + chunk_bytes(payload@));
}

/// Reads the word at byte offset `pos` of `bytes`.
pub fn read_word(bytes: &[u8], pos: usize) -> (word: u64)
    requires
        pos + 8 <= bytes@.len(),
    ensures
        word == spec_u64_from_le_bytes(bytes@.subrange(pos as int, pos + 8)),
{
    assert(bytes@.len() == bytes.len());
    u64_from_le_bytes(slice_subrange(bytes, pos, pos + 8))
}

/// Reads the chunk that starts at byte offset `pos` of `bytes` and returns the
/// offset just past it; the payload lies between `pos + 8` and that offset.
pub fn read_chunk(bytes: &[u8], pos: usize) -> (end: Option<usize>)
    requires
        pos <= bytes@.len(),
    ensures
        match parse_chunk(bytes@.skip(pos as int)) {
            None => end is None,
            Some((payload, used)) => end == Some((pos + used) as usize) && pos + used
                <= bytes@.len() && payload == bytes@.subrange(pos + 8, pos + used),
        },
{
    let ghost rest = bytes@.skip(pos as int);
    if bytes.len() - pos < 8 {
        return None;
    }
    let n = read_word(bytes, pos);
    assert(rest.subrange(0, 8) =~= bytes@.subrange(pos as int, pos + 8));
    if ((bytes.len() - pos - 8) as u64) < n {
        return None;
    }
    let end = pos + 8 + n as usize;
    assert(rest.subrange(8, 8 + n) =~= bytes@.subrange(pos + 8, end as int));
    Some(end)
}

/// The payloads held by a vector of byte vectors.
pub open spec fn payloads(items: Seq<Vec<u8>>) -> Seq<Seq<u8>> {
    Seq::new(items.len(), |i: int| items[i]@)
}

/// Splits `bytes` into the payloads of the chunks it is made of.
pub fn read_stream(bytes: &[u8]) -> (items: Option<Vec<Vec<u8>>>)
    ensures
        match parse_stream(bytes@) {
            None => items is None,
            Some(parsed) => items is Some && payloads(items->0@) == parsed,
        },
{
    let mut out: Vec<Vec<u8>> = Vec::new();
    let mut pos: usize = 0;
    assert(bytes@.skip(0) =~= bytes@);
    assert(payloads(out@) =~= Seq::<Seq<u8>>::empty());
    while pos < bytes.len()
        invariant
            pos <= bytes.len(),
            parse_stream(bytes@) == match parse_stream(bytes@.skip(pos as int)) {
                None => None,
                Some(rest) => Some(payloads(out@) + rest),
            },
        decreases bytes.len() - pos,
    {
        let ghost here = bytes@.skip(pos as int);
        match read_chunk(bytes, pos) {
            None => {
                return None;
            },
            Some(end) => {
                let item = slice_to_vec(slice_subrange(bytes, pos + 8, end));
                proof {
                    let (payload, used) = parse_chunk(here)->0;
                    assert(here.skip(used) =~= bytes@.skip(end as int));
                    let ghost before = payloads(out@);
                    assert(payloads(out@.push(item)) =~= before + seq![payload]);
                    assert forall|rest: Seq<Seq<u8>>|
                        before + (seq![payload] + rest) == (before + seq![payload])
                            + rest by {
                        assert(before + (seq![payload] + rest) =~= (before + seq![payload])
                            + rest);
                    }
                }
                out.push(item);
                pos = end;
            },
        }
    }
    assert(bytes@.skip(pos as int) =~= Seq::<u8>::empty());
    assert(payloads(out@) + Seq::<Seq<u8>>::empty() =~= payloads(out@));
    Some(out)
}

/// Appends `words` to `out` as a word array.
pub fn write_words(out: &mut Vec<u8>, words: &[u64])
    ensures
        final(out)@ == old(out)@ + words_bytes(words@),
{
    let mut i: usize = 0;
    assert(words@.take(0) =~= Seq::<u64>::empty());
    while i < words.len()
        invariant
            i <= words.len(),
            out@ == old(out)@ + words_bytes(words@.take(i as int)),
        decreases words.len() - i,
    {
        write_word(out, words[i]);
        i += 1;
        proof {
            let done = words@.take(i as int);
            assert(done.drop_last() =~= words@.take(i - 1));
            assert(out@ =~= old(out)@ + words_bytes(done));
        }
    }
    assert(words@.take(words.len() as int) =~= words@);
}

/// Reads `bytes` as a word array.
pub fn read_words(bytes: &[u8]) -> (words: Option<Vec<u64>>)
    ensures
        match parse_words(bytes@) {
            None => words is None,
            Some(parsed) => words is Some && words->0@ == parsed,
        },
{
    if bytes.len() % 8 != 0 {
        return None;
    }
    let count = bytes.len() / 8;
    let mut out: Vec<u64> = Vec::new();
    let mut i: usize = 0;
    while i < count
        invariant
            i <= count,
            count == bytes@.len() / 8,
            bytes@.len() % 8 == 0,
            bytes@.len() == bytes.len(),
            out@.len() == i,
            forall|j: int| 0 <= j < i ==> out@[j] == word_at(bytes@, j),
        decreases count - i,
    {
        let word = read_word(bytes, 8 * i);
        out.push(word);
        i += 1;
    }
    assert(out@ =~= parse_words(bytes@)->0);
    Some(out)
}

} // verus!
