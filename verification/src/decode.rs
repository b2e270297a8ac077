//! The protocol that every decodable type follows.
//!
//! A decoder consumes, from the cursor on, exactly the bytes that make up
//! one value of its type, and hands back the value or the error that
//! stopped it. What it does is fixed by a function on the bytes alone,
//! [`Decodeable::decoding`], so that decoders compose: the end of one is
//! the start of the next.

use vstd::prelude::*;
use crate::cursor::{reading_u32, Outcome, ReadSeeker};
use crate::error::DecodeError;

verus! {

/// Whether what a decoder returned is what `expected` holds: the same
/// error, or a value with that model.
pub open spec fn reports<T: DeepView>(
    result: Result<T, DecodeError>,
    expected: Result<T::V, DecodeError>,
) -> bool {
    match result {
        Ok(value) => expected == Ok::<T::V, DecodeError>(value.deep_view()),
        Err(error) => expected == Err::<T::V, DecodeError>(error),
    }
}

/// A type with a wire format.
pub trait Decodeable: Sized + DeepView {
    /// What decoding one value comes to, with the cursor at `start` in a
    /// stream that holds `bytes`.
    spec fn decoding(bytes: Seq<u8>, start: nat) -> Outcome<<Self as DeepView>::V>;

    /// A decoder moves the cursor forward only, and never past the end.
    proof fn lemma_decoding_advances(bytes: Seq<u8>, start: nat)
        requires
            start <= bytes.len(),
        ensures
            start <= Self::decoding(bytes, start).position <= bytes.len(),
    ;

    /// A decoder looks at no byte behind the place where it stops, and
    /// it delimits itself: on a stream cut at `cut` it comes to the same as
    /// on the whole stream if it stops by then; and if on the whole stream
    /// it succeeds only further on, then on the cut stream it fails, with
    /// an I/O error.
    proof fn lemma_decoding_of_prefix(bytes: Seq<u8>, start: nat, cut: nat)
        requires
            start <= cut <= bytes.len(),
        ensures
            Self::decoding(bytes, start).position <= cut ==> Self::decoding(
                bytes.take(cut as int),
                start,
            ) == Self::decoding(bytes, start),
            Self::decoding(bytes, start).position > cut && Self::decoding(bytes, start).result is Ok
                ==> Self::decoding(bytes.take(cut as int), start).result == Err::<
                <Self as DeepView>::V,
                DecodeError,
            >(DecodeError::Io),
    ;

    /// Decodes one value from `stream`, from the cursor on.
    ///
    /// The bytes of the stream stay as they are; the cursor ends where
    /// [`Self::decoding`] says, after the value or at the read that failed.
    fn read_and_decode(stream: &mut ReadSeeker) -> (result: Result<Self, DecodeError>)
        ensures
            final(stream)@.bytes == old(stream)@.bytes,
            final(stream)@.position == Self::decoding(
                old(stream)@.bytes,
                old(stream)@.position,
            ).position,
            reports(result, Self::decoding(old(stream)@.bytes, old(stream)@.position).result),
    ;
}

impl Decodeable for u32 {
    open spec fn decoding(bytes: Seq<u8>, start: nat) -> Outcome<u32> {
        reading_u32(bytes, start)
    }

    proof fn lemma_decoding_advances(bytes: Seq<u8>, start: nat) {
    }

    proof fn lemma_decoding_of_prefix(bytes: Seq<u8>, start: nat, cut: nat) {
    }

    fn read_and_decode(stream: &mut ReadSeeker) -> (result: Result<u32, DecodeError>) {
        stream.be_read_u32()
    }
}

/// What decoding `count` values of one type in a row comes to, with the
/// cursor at `start`: the values in the order of the stream, or the first
/// error and the place where it struck.
pub open spec fn decoding_items<T: Decodeable>(bytes: Seq<u8>, start: nat, count: nat) -> Outcome<
    Seq<<T as DeepView>::V>,
>
    decreases count,
{
    if count == 0 {
        Outcome { result: Ok(Seq::empty()), position: start }
    } else {
        let earlier = decoding_items::<T>(bytes, start, (count - 1) as nat);
        match earlier.result {
            Err(_) => earlier,
            Ok(items) => {
                let last = T::decoding(bytes, earlier.position);
                match last.result {
                    Ok(item) => Outcome { result: Ok(items.push(item)), position: last.position },
                    Err(error) => Outcome { result: Err(error), position: last.position },
                }
            },
        }
    }
}

/// Once an item has failed, asking for more items changes nothing.
pub proof fn lemma_items_failure_is_final<T: Decodeable>(
    bytes: Seq<u8>,
    start: nat,
    count: nat,
    more: nat,
)
    requires
        count <= more,
        decoding_items::<T>(bytes, start, count).result is Err,
    ensures
        decoding_items::<T>(bytes, start, more) == decoding_items::<T>(bytes, start, count),
    decreases more,
{
    if count < more {
        lemma_items_failure_is_final::<T>(bytes, start, count, (more - 1) as nat);
    }
}

/// Items that were decoded are as many as were asked for.
pub proof fn lemma_items_are_counted<T: Decodeable>(bytes: Seq<u8>, start: nat, count: nat)
    ensures
        decoding_items::<T>(bytes, start, count).result matches Ok(items) ==> items.len() == count,
    decreases count,
{
    if count > 0 {
        lemma_items_are_counted::<T>(bytes, start, (count - 1) as nat);
    }
}

/// Items come out in the order of the stream: item number `index` of a
/// run that decodes is what decodes at the place where the `index` items
/// before it end.
pub proof fn lemma_items_keep_stream_order<T: Decodeable>(
    bytes: Seq<u8>,
    start: nat,
    count: nat,
    index: nat,
)
    requires
        index < count,
        decoding_items::<T>(bytes, start, count).result is Ok,
    ensures
        decoding_items::<T>(bytes, start, index).result is Ok,
        T::decoding(bytes, decoding_items::<T>(bytes, start, index).position).result == Ok::<
            <T as DeepView>::V,
            DecodeError,
        >(decoding_items::<T>(bytes, start, count).result->Ok_0[index as int]),
    decreases count,
{
    lemma_items_are_counted::<T>(bytes, start, (count - 1) as nat);
    if index + 1 < count {
        lemma_items_keep_stream_order::<T>(bytes, start, (count - 1) as nat, index);
    }
}

/// A run of items moves the cursor forward only, and never past the end.
pub proof fn lemma_items_advance<T: Decodeable>(bytes: Seq<u8>, start: nat, count: nat)
    requires
        start <= bytes.len(),
    ensures
        start <= decoding_items::<T>(bytes, start, count).position <= bytes.len(),
    decreases count,
{
    if count > 0 {
        lemma_items_advance::<T>(bytes, start, (count - 1) as nat);
        let earlier = decoding_items::<T>(bytes, start, (count - 1) as nat);
        if earlier.result is Ok {
            T::lemma_decoding_advances(bytes, earlier.position);
        }
    }
}

/// A run of items on a stream cut at `cut`: the same as on the whole
/// stream if it stops by then, and an I/O error if on the whole stream it
/// succeeds only further on.
pub proof fn lemma_items_of_prefix<T: Decodeable>(bytes: Seq<u8>, start: nat, count: nat, cut: nat)
    requires
        start <= cut <= bytes.len(),
    ensures
        decoding_items::<T>(bytes, start, count).position <= cut ==> decoding_items::<T>(
            bytes.take(cut as int),
            start,
            count,
        ) == decoding_items::<T>(bytes, start, count),
        decoding_items::<T>(bytes, start, count).position > cut && decoding_items::<T>(
            bytes,
            start,
            count,
        ).result is Ok ==> decoding_items::<T>(bytes.take(cut as int), start, count).result == Err::<
            Seq<<T as DeepView>::V>,
            DecodeError,
        >(DecodeError::Io),
    decreases count,
{
    if count > 0 {
        let earlier = decoding_items::<T>(bytes, start, (count - 1) as nat);
        lemma_items_of_prefix::<T>(bytes, start, (count - 1) as nat, cut);
        lemma_items_advance::<T>(bytes, start, (count - 1) as nat);
        if earlier.result is Ok {
            T::lemma_decoding_advances(bytes, earlier.position);
            if earlier.position <= cut {
                T::lemma_decoding_of_prefix(bytes, earlier.position, cut);
            }
        }
    }
}

/// A sequence on the wire is its length as a `u32`, then its items.
impl<T: Decodeable> Decodeable for Vec<T> {
    open spec fn decoding(bytes: Seq<u8>, start: nat) -> Outcome<Seq<<T as DeepView>::V>> {
        let count = reading_u32(bytes, start);
        match count.result {
            Ok(count_value) => decoding_items::<T>(bytes, count.position, count_value as nat),
            Err(error) => Outcome { result: Err(error), position: count.position },
        }
    }

    proof fn lemma_decoding_advances(bytes: Seq<u8>, start: nat) {
        let count = reading_u32(bytes, start);
        if let Ok(count_value) = count.result {
            lemma_items_advance::<T>(bytes, count.position, count_value as nat);
        }
    }

    proof fn lemma_decoding_of_prefix(bytes: Seq<u8>, start: nat, cut: nat) {
        let count = reading_u32(bytes, start);
        if let Ok(count_value) = count.result {
            lemma_items_advance::<T>(bytes, count.position, count_value as nat);
            if count.position <= cut {
                lemma_items_of_prefix::<T>(bytes, count.position, count_value as nat, cut);
            }
        }
    }

    fn read_and_decode(stream: &mut ReadSeeker) -> (result: Result<Vec<T>, DecodeError>) {
        let ghost bytes = stream@.bytes;
        let count: u32 = match stream.be_read_u32() {
            Ok(count) => count,
            Err(error) => {
                return Err(error);
            },
        };
        let ghost first = stream@.position;
        let mut results: Vec<T> = Vec::new();
        let mut done: u32 = 0;
        assert(results.deep_view() =~= Seq::empty());
        while done < count
            invariant
                done <= count,
                stream@.bytes == bytes,
                old(stream)@.bytes == bytes,
                reading_u32(bytes, old(stream)@.position) == (Outcome {
                    result: Ok(count),
                    position: first,
                }),
                decoding_items::<T>(bytes, first, done as nat) == (Outcome {
                    result: Ok(results.deep_view()),
                    position: stream@.position,
                }),
            decreases count - done,
        {
            match T::read_and_decode(stream) {
                Ok(item) => {
                    let ghost earlier = results.deep_view();
                    results.push(item);
                    assert(results.deep_view() =~= earlier.push(item.deep_view()));
                },
                Err(error) => {
                    proof {
                        lemma_items_failure_is_final::<T>(
                            bytes,
                            first,
                            (done + 1) as nat,
                            count as nat,
                        );
                    }
                    return Err(error);
                },
            }
            done = done + 1;
        }
        Ok(results)
    }
}

} // verus!
