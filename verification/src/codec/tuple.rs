//! Implementations for tuples of up to 12 values, stored one after the other: the first
//! value and then the tuple of the rest.

use vstd::prelude::*;

use super::{lemma_within_add, Codec};
use crate::decode::{Data, Decode, DecodeBearer, DecodeError};
use crate::encode::{lemma_encoded_stop, lemma_encoded_then, Encode, EncodeBearer, EncodeError};
use crate::laws::{lemma_take_all_add, Tail};
use crate::stream::Feed;

verus! {

impl<T0: Data, T1: Data> Data for (T0, T1) {
    type Value = (T0::Value, T1::Value);

    open spec fn value(&self) -> Self::Value {
        (self.0.value(), self.1.value())
    }
}

impl<T0: Encode, T1: Encode> Encode for (T0, T1) {
    open spec fn wire(&self) -> Seq<Seq<u8>> {
        self.0.wire() + self.1.wire()
    }

    open spec fn size_hint(&self) -> nat {
        self.0.size_hint() + self.1.size_hint()
    }

    fn encode<B: EncodeBearer>(bearer: &mut B, src: &Self) -> (r: Result<(), EncodeError>) {
        let ghost before = *bearer;
        let ghost rest = src.1.wire();
        if let Err(e) = T0::encode(bearer, &src.0) {
            proof {
                lemma_encoded_stop(before, *bearer, src.0.wire(), rest, e);
            }
            return Err(e);
        }
        let ghost between = *bearer;
        let r = T1::encode(bearer, &src.1);
        proof {
            lemma_encoded_then(before, between, *bearer, src.0.wire(), rest, r);
        }
        r
    }

    fn size_of(&self) -> (r: usize) {
        self.0.size_of() + self.1.size_of()
    }
}

impl<T0: Decode, T1: Decode> Decode for (T0, T1) {
    open spec fn decoding(feed: Feed) -> (Result<Self::Value, DecodeError>, Feed) {
        match T0::decoding(feed) {
            (Ok(a), feed) => match T1::decoding(feed) {
                (Ok(b), feed) => (Ok((a, b)), feed),
                (Err(e), feed) => (Err(e), feed),
            },
            (Err(e), feed) => (Err(e), feed),
        }
    }

    fn decode<B: DecodeBearer>(bearer: &mut B) -> (r: Result<Self, DecodeError>) {
        let a = match T0::decode(bearer) {
            Ok(a) => a,
            Err(e) => return Err(e),
        };
        match T1::decode(bearer) {
            Ok(b) => Ok((a, b)),
            Err(e) => Err(e),
        }
    }
}

impl<T0: Codec, T1: Codec> Codec for (T0, T1) {
    open spec fn faithful(&self) -> bool {
        self.0.faithful() && self.1.faithful()
    }

    proof fn law_chunks_within(&self) {
        self.0.law_chunks_within();
        self.1.law_chunks_within();
        lemma_within_add(self.0.wire(), self.1.wire());
    }

    proof fn law_round_trip(&self, feed: Feed, tail: Tail) {
        lemma_take_all_add(tail, self.0.wire(), self.1.wire());
        self.0.law_round_trip(feed, tail);
        self.1.law_round_trip(
            T0::decoding(feed).1,
            tail.take_all(self.0.wire())->0,
        );
    }
}

impl<T0: Data, T1: Data, T2: Data> Data for (T0, T1, T2) {
    type Value = (T0::Value, T1::Value, T2::Value);

    open spec fn value(&self) -> Self::Value {
        (self.0.value(), self.1.value(), self.2.value())
    }
}

impl<T0: Encode, T1: Encode, T2: Encode> Encode for (T0, T1, T2) {
    open spec fn wire(&self) -> Seq<Seq<u8>> {
        self.0.wire() + (self.1, self.2).wire()
    }

    open spec fn size_hint(&self) -> nat {
        self.0.size_hint() + (self.1, self.2).size_hint()
    }

    fn encode<B: EncodeBearer>(bearer: &mut B, src: &Self) -> (r: Result<(), EncodeError>) {
        let ghost before = *bearer;
        let ghost rest = (src.1, src.2).wire();
        if let Err(e) = T0::encode(bearer, &src.0) {
            proof {
                lemma_encoded_stop(before, *bearer, src.0.wire(), rest, e);
            }
            return Err(e);
        }
        let ghost between = *bearer;
        let r = <(&T1, &T2)>::encode(bearer, &(&src.1, &src.2));
        proof {
            lemma_encoded_then(before, between, *bearer, src.0.wire(), rest, r);
        }
        r
    }

    fn size_of(&self) -> (r: usize) {
        self.0.size_of() + (&self.1, &self.2).size_of()
    }
}

impl<T0: Decode, T1: Decode, T2: Decode> Decode for (T0, T1, T2) {
    open spec fn decoding(feed: Feed) -> (Result<Self::Value, DecodeError>, Feed) {
        match T0::decoding(feed) {
            (Ok(a), feed) => match <(T1, T2)>::decoding(feed) {
                (Ok((b, c)), feed) => (Ok((a, b, c)), feed),
                (Err(e), feed) => (Err(e), feed),
            },
            (Err(e), feed) => (Err(e), feed),
        }
    }

    fn decode<B: DecodeBearer>(bearer: &mut B) -> (r: Result<Self, DecodeError>) {
        let a = match T0::decode(bearer) {
            Ok(a) => a,
            Err(e) => return Err(e),
        };
        match <(T1, T2)>::decode(bearer) {
            Ok((b, c)) => Ok((a, b, c)),
            Err(e) => Err(e),
        }
    }
}

impl<T0: Codec, T1: Codec, T2: Codec> Codec for (T0, T1, T2) {
    open spec fn faithful(&self) -> bool {
        self.0.faithful() && (self.1, self.2).faithful()
    }

    proof fn law_chunks_within(&self) {
        self.0.law_chunks_within();
        (self.1, self.2).law_chunks_within();
        lemma_within_add(self.0.wire(), (self.1, self.2).wire());
    }

    proof fn law_round_trip(&self, feed: Feed, tail: Tail) {
        lemma_take_all_add(tail, self.0.wire(), (self.1, self.2).wire());
        self.0.law_round_trip(feed, tail);
        (self.1, self.2).law_round_trip(
            T0::decoding(feed).1,
            tail.take_all(self.0.wire())->0,
        );
    }
}

impl<T0: Data, T1: Data, T2: Data, T3: Data> Data for (T0, T1, T2, T3) {
    type Value = (T0::Value, T1::Value, T2::Value, T3::Value);

    open spec fn value(&self) -> Self::Value {
        (self.0.value(), self.1.value(), self.2.value(), self.3.value())
    }
}

impl<T0: Encode, T1: Encode, T2: Encode, T3: Encode> Encode for (T0, T1, T2, T3) {
    open spec fn wire(&self) -> Seq<Seq<u8>> {
        self.0.wire() + (self.1, self.2, self.3).wire()
    }

    open spec fn size_hint(&self) -> nat {
        self.0.size_hint() + (self.1, self.2, self.3).size_hint()
    }

    fn encode<B: EncodeBearer>(bearer: &mut B, src: &Self) -> (r: Result<(), EncodeError>) {
        let ghost before = *bearer;
        let ghost rest = (src.1, src.2, src.3).wire();
        if let Err(e) = T0::encode(bearer, &src.0) {
            proof {
                lemma_encoded_stop(before, *bearer, src.0.wire(), rest, e);
            }
            return Err(e);
        }
        let ghost between = *bearer;
        let r = <(&T1, &T2, &T3)>::encode(bearer, &(&src.1, &src.2, &src.3));
        proof {
            lemma_encoded_then(before, between, *bearer, src.0.wire(), rest, r);
        }
        r
    }

    fn size_of(&self) -> (r: usize) {
        self.0.size_of() + (&self.1, &self.2, &self.3).size_of()
    }
}

impl<T0: Decode, T1: Decode, T2: Decode, T3: Decode> Decode for (T0, T1, T2, T3) {
    open spec fn decoding(feed: Feed) -> (Result<Self::Value, DecodeError>, Feed) {
        match T0::decoding(feed) {
            (Ok(a), feed) => match <(T1, T2, T3)>::decoding(feed) {
                (Ok((b, c, d)), feed) => (Ok((a, b, c, d)), feed),
                (Err(e), feed) => (Err(e), feed),
            },
            (Err(e), feed) => (Err(e), feed),
        }
    }

    fn decode<B: DecodeBearer>(bearer: &mut B) -> (r: Result<Self, DecodeError>) {
        let a = match T0::decode(bearer) {
            Ok(a) => a,
            Err(e) => return Err(e),
        };
        match <(T1, T2, T3)>::decode(bearer) {
            Ok((b, c, d)) => Ok((a, b, c, d)),
            Err(e) => Err(e),
        }
    }
}

impl<T0: Codec, T1: Codec, T2: Codec, T3: Codec> Codec for (T0, T1, T2, T3) {
    open spec fn faithful(&self) -> bool {
        self.0.faithful() && (self.1, self.2, self.3).faithful()
    }

    proof fn law_chunks_within(&self) {
        self.0.law_chunks_within();
        (self.1, self.2, self.3).law_chunks_within();
        lemma_within_add(self.0.wire(), (self.1, self.2, self.3).wire());
    }

    proof fn law_round_trip(&self, feed: Feed, tail: Tail) {
        lemma_take_all_add(tail, self.0.wire(), (self.1, self.2, self.3).wire());
        self.0.law_round_trip(feed, tail);
        (self.1, self.2, self.3).law_round_trip(
            T0::decoding(feed).1,
            tail.take_all(self.0.wire())->0,
        );
    }
}

impl<T0: Data, T1: Data, T2: Data, T3: Data, T4: Data> Data for (T0, T1, T2, T3, T4) {
    type Value = (T0::Value, T1::Value, T2::Value, T3::Value, T4::Value);

    open spec fn value(&self) -> Self::Value {
        (self.0.value(), self.1.value(), self.2.value(), self.3.value(), self.4.value())
    }
}

impl<T0: Encode, T1: Encode, T2: Encode, T3: Encode, T4: Encode> Encode for (T0, T1, T2, T3, T4) {
    open spec fn wire(&self) -> Seq<Seq<u8>> {
        self.0.wire() + (self.1, self.2, self.3, self.4).wire()
    }

    open spec fn size_hint(&self) -> nat {
        self.0.size_hint() + (self.1, self.2, self.3, self.4).size_hint()
    }

    fn encode<B: EncodeBearer>(bearer: &mut B, src: &Self) -> (r: Result<(), EncodeError>) {
        let ghost before = *bearer;
        let ghost rest = (src.1, src.2, src.3, src.4).wire();
        if let Err(e) = T0::encode(bearer, &src.0) {
            proof {
                lemma_encoded_stop(before, *bearer, src.0.wire(), rest, e);
            }
            return Err(e);
        }
        let ghost between = *bearer;
        let r = <(&T1, &T2, &T3, &T4)>::encode(bearer, &(&src.1, &src.2, &src.3, &src.4));
        proof {
            lemma_encoded_then(before, between, *bearer, src.0.wire(), rest, r);
        }
        r
    }

    fn size_of(&self) -> (r: usize) {
        self.0.size_of() + (&self.1, &self.2, &self.3, &self.4).size_of()
    }
}

impl<T0: Decode, T1: Decode, T2: Decode, T3: Decode, T4: Decode> Decode for (T0, T1, T2, T3, T4) {
    open spec fn decoding(feed: Feed) -> (Result<Self::Value, DecodeError>, Feed) {
        match T0::decoding(feed) {
            (Ok(a), feed) => match <(T1, T2, T3, T4)>::decoding(feed) {
                (Ok((b, c, d, e)), feed) => (Ok((a, b, c, d, e)), feed),
                (Err(e), feed) => (Err(e), feed),
            },
            (Err(e), feed) => (Err(e), feed),
        }
    }

    fn decode<B: DecodeBearer>(bearer: &mut B) -> (r: Result<Self, DecodeError>) {
        let a = match T0::decode(bearer) {
            Ok(a) => a,
            Err(e) => return Err(e),
        };
        match <(T1, T2, T3, T4)>::decode(bearer) {
            Ok((b, c, d, e)) => Ok((a, b, c, d, e)),
            Err(e) => Err(e),
        }
    }
}

impl<T0: Codec, T1: Codec, T2: Codec, T3: Codec, T4: Codec> Codec for (T0, T1, T2, T3, T4) {
    open spec fn faithful(&self) -> bool {
        self.0.faithful() && (self.1, self.2, self.3, self.4).faithful()
    }

    proof fn law_chunks_within(&self) {
        self.0.law_chunks_within();
        (self.1, self.2, self.3, self.4).law_chunks_within();
        lemma_within_add(self.0.wire(), (self.1, self.2, self.3, self.4).wire());
    }

    proof fn law_round_trip(&self, feed: Feed, tail: Tail) {
        lemma_take_all_add(tail, self.0.wire(), (self.1, self.2, self.3, self.4).wire());
        self.0.law_round_trip(feed, tail);
        (self.1, self.2, self.3, self.4).law_round_trip(
            T0::decoding(feed).1,
            tail.take_all(self.0.wire())->0,
        );
    }
}

impl<T0: Data, T1: Data, T2: Data, T3: Data, T4: Data, T5: Data> Data for (T0, T1, T2, T3, T4, T5) {
    type Value = (T0::Value, T1::Value, T2::Value, T3::Value, T4::Value, T5::Value);

    open spec fn value(&self) -> Self::Value {
        (self.0.value(), self.1.value(), self.2.value(), self.3.value(), self.4.value(), self.5.value())
    }
}

impl<
    T0: Encode,
    T1: Encode,
    T2: Encode,
    T3: Encode,
    T4: Encode,
    T5: Encode,
> Encode for (T0, T1, T2, T3, T4, T5) {
    open spec fn wire(&self) -> Seq<Seq<u8>> {
        self.0.wire() + (self.1, self.2, self.3, self.4, self.5).wire()
    }

    open spec fn size_hint(&self) -> nat {
        self.0.size_hint() + (self.1, self.2, self.3, self.4, self.5).size_hint()
    }

    fn encode<B: EncodeBearer>(bearer: &mut B, src: &Self) -> (r: Result<(), EncodeError>) {
        let ghost before = *bearer;
        let ghost rest = (src.1, src.2, src.3, src.4, src.5).wire();
        if let Err(e) = T0::encode(bearer, &src.0) {
            proof {
                lemma_encoded_stop(before, *bearer, src.0.wire(), rest, e);
            }
            return Err(e);
        }
        let ghost between = *bearer;
        let r = <(&T1, &T2, &T3, &T4, &T5)>::encode(bearer, &(&src.1, &src.2, &src.3, &src.4, &src.5));
        proof {
            lemma_encoded_then(before, between, *bearer, src.0.wire(), rest, r);
        }
        r
    }

    fn size_of(&self) -> (r: usize) {
        self.0.size_of() + (&self.1, &self.2, &self.3, &self.4, &self.5).size_of()
    }
}

impl<
    T0: Decode,
    T1: Decode,
    T2: Decode,
    T3: Decode,
    T4: Decode,
    T5: Decode,
> Decode for (T0, T1, T2, T3, T4, T5) {
    open spec fn decoding(feed: Feed) -> (Result<Self::Value, DecodeError>, Feed) {
        match T0::decoding(feed) {
            (Ok(a), feed) => match <(T1, T2, T3, T4, T5)>::decoding(feed) {
                (Ok((b, c, d, e, f)), feed) => (Ok((a, b, c, d, e, f)), feed),
                (Err(e), feed) => (Err(e), feed),
            },
            (Err(e), feed) => (Err(e), feed),
        }
    }

    fn decode<B: DecodeBearer>(bearer: &mut B) -> (r: Result<Self, DecodeError>) {
        let a = match T0::decode(bearer) {
            Ok(a) => a,
            Err(e) => return Err(e),
        };
        match <(T1, T2, T3, T4, T5)>::decode(bearer) {
            Ok((b, c, d, e, f)) => Ok((a, b, c, d, e, f)),
            Err(e) => Err(e),
        }
    }
}

impl<
    T0: Codec,
    T1: Codec,
    T2: Codec,
    T3: Codec,
    T4: Codec,
    T5: Codec,
> Codec for (T0, T1, T2, T3, T4, T5) {
    open spec fn faithful(&self) -> bool {
        self.0.faithful() && (self.1, self.2, self.3, self.4, self.5).faithful()
    }

    proof fn law_chunks_within(&self) {
        self.0.law_chunks_within();
        (self.1, self.2, self.3, self.4, self.5).law_chunks_within();
        lemma_within_add(self.0.wire(), (self.1, self.2, self.3, self.4, self.5).wire());
    }

    proof fn law_round_trip(&self, feed: Feed, tail: Tail) {
        lemma_take_all_add(tail, self.0.wire(), (self.1, self.2, self.3, self.4, self.5).wire());
        self.0.law_round_trip(feed, tail);
        (self.1, self.2, self.3, self.4, self.5).law_round_trip(
            T0::decoding(feed).1,
            tail.take_all(self.0.wire())->0,
        );
    }
}

impl<
    T0: Data,
    T1: Data,
    T2: Data,
    T3: Data,
    T4: Data,
    T5: Data,
    T6: Data,
> Data for (T0, T1, T2, T3, T4, T5, T6) {
    type Value = (T0::Value, T1::Value, T2::Value, T3::Value, T4::Value, T5::Value, T6::Value);

    open spec fn value(&self) -> Self::Value {
        (self.0.value(), self.1.value(), self.2.value(), self.3.value(), self.4.value(), self.5.value(), self.6.value())
    }
}

impl<
    T0: Encode,
    T1: Encode,
    T2: Encode,
    T3: Encode,
    T4: Encode,
    T5: Encode,
    T6: Encode,
> Encode for (T0, T1, T2, T3, T4, T5, T6) {
    open spec fn wire(&self) -> Seq<Seq<u8>> {
        self.0.wire() + (self.1, self.2, self.3, self.4, self.5, self.6).wire()
    }

    open spec fn size_hint(&self) -> nat {
        self.0.size_hint() + (self.1, self.2, self.3, self.4, self.5, self.6).size_hint()
    }

    fn encode<B: EncodeBearer>(bearer: &mut B, src: &Self) -> (r: Result<(), EncodeError>) {
        let ghost before = *bearer;
        let ghost rest = (src.1, src.2, src.3, src.4, src.5, src.6).wire();
        if let Err(e) = T0::encode(bearer, &src.0) {
            proof {
                lemma_encoded_stop(before, *bearer, src.0.wire(), rest, e);
            }
            return Err(e);
        }
        let ghost between = *bearer;
        let r = <(&T1, &T2, &T3, &T4, &T5, &T6)>::encode(bearer, &(&src.1, &src.2, &src.3, &src.4, &src.5, &src.6));
        proof {
            lemma_encoded_then(before, between, *bearer, src.0.wire(), rest, r);
        }
        r
    }

    fn size_of(&self) -> (r: usize) {
        self.0.size_of() + (&self.1, &self.2, &self.3, &self.4, &self.5, &self.6).size_of()
    }
}

impl<
    T0: Decode,
    T1: Decode,
    T2: Decode,
    T3: Decode,
    T4: Decode,
    T5: Decode,
    T6: Decode,
> Decode for (T0, T1, T2, T3, T4, T5, T6) {
    open spec fn decoding(feed: Feed) -> (Result<Self::Value, DecodeError>, Feed) {
        match T0::decoding(feed) {
            (Ok(a), feed) => match <(T1, T2, T3, T4, T5, T6)>::decoding(feed) {
                (Ok((b, c, d, e, f, g)), feed) => (Ok((a, b, c, d, e, f, g)), feed),
                (Err(e), feed) => (Err(e), feed),
            },
            (Err(e), feed) => (Err(e), feed),
        }
    }

    fn decode<B: DecodeBearer>(bearer: &mut B) -> (r: Result<Self, DecodeError>) {
        let a = match T0::decode(bearer) {
            Ok(a) => a,
            Err(e) => return Err(e),
        };
        match <(T1, T2, T3, T4, T5, T6)>::decode(bearer) {
            Ok((b, c, d, e, f, g)) => Ok((a, b, c, d, e, f, g)),
            Err(e) => Err(e),
        }
    }
}

impl<
    T0: Codec,
    T1: Codec,
    T2: Codec,
    T3: Codec,
    T4: Codec,
    T5: Codec,
    T6: Codec,
> Codec for (T0, T1, T2, T3, T4, T5, T6) {
    open spec fn faithful(&self) -> bool {
        self.0.faithful() && (self.1, self.2, self.3, self.4, self.5, self.6).faithful()
    }

    proof fn law_chunks_within(&self) {
        self.0.law_chunks_within();
        (self.1, self.2, self.3, self.4, self.5, self.6).law_chunks_within();
        lemma_within_add(self.0.wire(), (self.1, self.2, self.3, self.4, self.5, self.6).wire());
    }

    proof fn law_round_trip(&self, feed: Feed, tail: Tail) {
        lemma_take_all_add(tail, self.0.wire(), (self.1, self.2, self.3, self.4, self.5, self.6).wire());
        self.0.law_round_trip(feed, tail);
        (self.1, self.2, self.3, self.4, self.5, self.6).law_round_trip(
            T0::decoding(feed).1,
            tail.take_all(self.0.wire())->0,
        );
    }
}

impl<
    T0: Data,
    T1: Data,
    T2: Data,
    T3: Data,
    T4: Data,
    T5: Data,
    T6: Data,
    T7: Data,
> Data for (T0, T1, T2, T3, T4, T5, T6, T7) {
    type Value = (T0::Value, T1::Value, T2::Value, T3::Value, T4::Value, T5::Value, T6::Value, T7::Value);

    open spec fn value(&self) -> Self::Value {
        (self.0.value(), self.1.value(), self.2.value(), self.3.value(), self.4.value(), self.5.value(), self.6.value(), self.7.value())
    }
}

impl<
    T0: Encode,
    T1: Encode,
    T2: Encode,
    T3: Encode,
    T4: Encode,
    T5: Encode,
    T6: Encode,
    T7: Encode,
> Encode for (T0, T1, T2, T3, T4, T5, T6, T7) {
    open spec fn wire(&self) -> Seq<Seq<u8>> {
        self.0.wire() + (self.1, self.2, self.3, self.4, self.5, self.6, self.7).wire()
    }

    open spec fn size_hint(&self) -> nat {
        self.0.size_hint() + (self.1, self.2, self.3, self.4, self.5, self.6, self.7).size_hint()
    }

    fn encode<B: EncodeBearer>(bearer: &mut B, src: &Self) -> (r: Result<(), EncodeError>) {
        let ghost before = *bearer;
        let ghost rest = (src.1, src.2, src.3, src.4, src.5, src.6, src.7).wire();
        if let Err(e) = T0::encode(bearer, &src.0) {
            proof {
                lemma_encoded_stop(before, *bearer, src.0.wire(), rest, e);
            }
            return Err(e);
        }
        let ghost between = *bearer;
        let r = <(&T1, &T2, &T3, &T4, &T5, &T6, &T7)>::encode(bearer, &(&src.1, &src.2, &src.3, &src.4, &src.5, &src.6, &src.7));
        proof {
            lemma_encoded_then(before, between, *bearer, src.0.wire(), rest, r);
        }
        r
    }

    fn size_of(&self) -> (r: usize) {
        self.0.size_of() + (&self.1, &self.2, &self.3, &self.4, &self.5, &self.6, &self.7).size_of()
    }
}

impl<
    T0: Decode,
    T1: Decode,
    T2: Decode,
    T3: Decode,
    T4: Decode,
    T5: Decode,
    T6: Decode,
    T7: Decode,
> Decode for (T0, T1, T2, T3, T4, T5, T6, T7) {
    open spec fn decoding(feed: Feed) -> (Result<Self::Value, DecodeError>, Feed) {
        match T0::decoding(feed) {
            (Ok(a), feed) => match <(T1, T2, T3, T4, T5, T6, T7)>::decoding(feed) {
                (Ok((b, c, d, e, f, g, h)), feed) => (Ok((a, b, c, d, e, f, g, h)), feed),
                (Err(e), feed) => (Err(e), feed),
            },
            (Err(e), feed) => (Err(e), feed),
        }
    }

    fn decode<B: DecodeBearer>(bearer: &mut B) -> (r: Result<Self, DecodeError>) {
        let a = match T0::decode(bearer) {
            Ok(a) => a,
            Err(e) => return Err(e),
        };
        match <(T1, T2, T3, T4, T5, T6, T7)>::decode(bearer) {
            Ok((b, c, d, e, f, g, h)) => Ok((a, b, c, d, e, f, g, h)),
            Err(e) => Err(e),
        }
    }
}

impl<
    T0: Codec,
    T1: Codec,
    T2: Codec,
    T3: Codec,
    T4: Codec,
    T5: Codec,
    T6: Codec,
    T7: Codec,
> Codec for (T0, T1, T2, T3, T4, T5, T6, T7) {
    open spec fn faithful(&self) -> bool {
        self.0.faithful() && (self.1, self.2, self.3, self.4, self.5, self.6, self.7).faithful()
    }

    proof fn law_chunks_within(&self) {
        self.0.law_chunks_within();
        (self.1, self.2, self.3, self.4, self.5, self.6, self.7).law_chunks_within();
        lemma_within_add(self.0.wire(), (self.1, self.2, self.3, self.4, self.5, self.6, self.7).wire());
    }

    proof fn law_round_trip(&self, feed: Feed, tail: Tail) {
        lemma_take_all_add(tail, self.0.wire(), (self.1, self.2, self.3, self.4, self.5, self.6, self.7).wire());
        self.0.law_round_trip(feed, tail);
        (self.1, self.2, self.3, self.4, self.5, self.6, self.7).law_round_trip(
            T0::decoding(feed).1,
            tail.take_all(self.0.wire())->0,
        );
    }
}

impl<
    T0: Data,
    T1: Data,
    T2: Data,
    T3: Data,
    T4: Data,
    T5: Data,
    T6: Data,
    T7: Data,
    T8: Data,
> Data for (T0, T1, T2, T3, T4, T5, T6, T7, T8) {
    type Value = (T0::Value, T1::Value, T2::Value, T3::Value, T4::Value, T5::Value, T6::Value, T7::Value, T8::Value);

    open spec fn value(&self) -> Self::Value {
        (self.0.value(), self.1.value(), self.2.value(), self.3.value(), self.4.value(), self.5.value(), self.6.value(), self.7.value(), self.8.value())
    }
}

impl<
    T0: Encode,
    T1: Encode,
    T2: Encode,
    T3: Encode,
    T4: Encode,
    T5: Encode,
    T6: Encode,
    T7: Encode,
    T8: Encode,
> Encode for (T0, T1, T2, T3, T4, T5, T6, T7, T8) {
    open spec fn wire(&self) -> Seq<Seq<u8>> {
        self.0.wire() + (self.1, self.2, self.3, self.4, self.5, self.6, self.7, self.8).wire()
    }

    open spec fn size_hint(&self) -> nat {
        self.0.size_hint() + (self.1, self.2, self.3, self.4, self.5, self.6, self.7, self.8).size_hint()
    }

    fn encode<B: EncodeBearer>(bearer: &mut B, src: &Self) -> (r: Result<(), EncodeError>) {
        let ghost before = *bearer;
        let ghost rest = (src.1, src.2, src.3, src.4, src.5, src.6, src.7, src.8).wire();
        if let Err(e) = T0::encode(bearer, &src.0) {
            proof {
                lemma_encoded_stop(before, *bearer, src.0.wire(), rest, e);
            }
            return Err(e);
        }
        let ghost between = *bearer;
        let r = <(&T1, &T2, &T3, &T4, &T5, &T6, &T7, &T8)>::encode(bearer, &(&src.1, &src.2, &src.3, &src.4, &src.5, &src.6, &src.7, &src.8));
        proof {
            lemma_encoded_then(before, between, *bearer, src.0.wire(), rest, r);
        }
        r
    }

    fn size_of(&self) -> (r: usize) {
        self.0.size_of() + (&self.1, &self.2, &self.3, &self.4, &self.5, &self.6, &self.7, &self.8).size_of()
    }
}

impl<
    T0: Decode,
    T1: Decode,
    T2: Decode,
    T3: Decode,
    T4: Decode,
    T5: Decode,
    T6: Decode,
    T7: Decode,
    T8: Decode,
> Decode for (T0, T1, T2, T3, T4, T5, T6, T7, T8) {
    open spec fn decoding(feed: Feed) -> (Result<Self::Value, DecodeError>, Feed) {
        match T0::decoding(feed) {
            (Ok(a), feed) => match <(T1, T2, T3, T4, T5, T6, T7, T8)>::decoding(feed) {
                (Ok((b, c, d, e, f, g, h, i)), feed) => (Ok((a, b, c, d, e, f, g, h, i)), feed),
                (Err(e), feed) => (Err(e), feed),
            },
            (Err(e), feed) => (Err(e), feed),
        }
    }

    fn decode<B: DecodeBearer>(bearer: &mut B) -> (r: Result<Self, DecodeError>) {
        let a = match T0::decode(bearer) {
            Ok(a) => a,
            Err(e) => return Err(e),
        };
        match <(T1, T2, T3, T4, T5, T6, T7, T8)>::decode(bearer) {
            Ok((b, c, d, e, f, g, h, i)) => Ok((a, b, c, d, e, f, g, h, i)),
            Err(e) => Err(e),
        }
    }
}

impl<
    T0: Codec,
    T1: Codec,
    T2: Codec,
    T3: Codec,
    T4: Codec,
    T5: Codec,
    T6: Codec,
    T7: Codec,
    T8: Codec,
> Codec for (T0, T1, T2, T3, T4, T5, T6, T7, T8) {
    open spec fn faithful(&self) -> bool {
        self.0.faithful() && (self.1, self.2, self.3, self.4, self.5, self.6, self.7, self.8).faithful()
    }

    proof fn law_chunks_within(&self) {
        self.0.law_chunks_within();
        (self.1, self.2, self.3, self.4, self.5, self.6, self.7, self.8).law_chunks_within();
        lemma_within_add(self.0.wire(), (self.1, self.2, self.3, self.4, self.5, self.6, self.7, self.8).wire());
    }

    proof fn law_round_trip(&self, feed: Feed, tail: Tail) {
        lemma_take_all_add(tail, self.0.wire(), (self.1, self.2, self.3, self.4, self.5, self.6, self.7, self.8).wire());
        self.0.law_round_trip(feed, tail);
        (self.1, self.2, self.3, self.4, self.5, self.6, self.7, self.8).law_round_trip(
            T0::decoding(feed).1,
            tail.take_all(self.0.wire())->0,
        );
    }
}

impl<
    T0: Data,
    T1: Data,
    T2: Data,
    T3: Data,
    T4: Data,
    T5: Data,
    T6: Data,
    T7: Data,
    T8: Data,
    T9: Data,
> Data for (T0, T1, T2, T3, T4, T5, T6, T7, T8, T9) {
    type Value = (T0::Value, T1::Value, T2::Value, T3::Value, T4::Value, T5::Value, T6::Value, T7::Value, T8::Value, T9::Value);

    open spec fn value(&self) -> Self::Value {
        (self.0.value(), self.1.value(), self.2.value(), self.3.value(), self.4.value(), self.5.value(), self.6.value(), self.7.value(), self.8.value(), self.9.value())
    }
}

impl<
    T0: Encode,
    T1: Encode,
    T2: Encode,
    T3: Encode,
    T4: Encode,
    T5: Encode,
    T6: Encode,
    T7: Encode,
    T8: Encode,
    T9: Encode,
> Encode for (T0, T1, T2, T3, T4, T5, T6, T7, T8, T9) {
    open spec fn wire(&self) -> Seq<Seq<u8>> {
        self.0.wire() + (self.1, self.2, self.3, self.4, self.5, self.6, self.7, self.8, self.9).wire()
    }

    open spec fn size_hint(&self) -> nat {
        self.0.size_hint() + (self.1, self.2, self.3, self.4, self.5, self.6, self.7, self.8, self.9).size_hint()
    }

    fn encode<B: EncodeBearer>(bearer: &mut B, src: &Self) -> (r: Result<(), EncodeError>) {
        let ghost before = *bearer;
        let ghost rest = (src.1, src.2, src.3, src.4, src.5, src.6, src.7, src.8, src.9).wire();
        if let Err(e) = T0::encode(bearer, &src.0) {
            proof {
                lemma_encoded_stop(before, *bearer, src.0.wire(), rest, e);
            }
            return Err(e);
        }
        let ghost between = *bearer;
        let r = <(&T1, &T2, &T3, &T4, &T5, &T6, &T7, &T8, &T9)>::encode(bearer, &(&src.1, &src.2, &src.3, &src.4, &src.5, &src.6, &src.7, &src.8, &src.9));
        proof {
            lemma_encoded_then(before, between, *bearer, src.0.wire(), rest, r);
        }
        r
    }

    fn size_of(&self) -> (r: usize) {
        self.0.size_of() + (&self.1, &self.2, &self.3, &self.4, &self.5, &self.6, &self.7, &self.8, &self.9).size_of()
    }
}

impl<
    T0: Decode,
    T1: Decode,
    T2: Decode,
    T3: Decode,
    T4: Decode,
    T5: Decode,
    T6: Decode,
    T7: Decode,
    T8: Decode,
    T9: Decode,
> Decode for (T0, T1, T2, T3, T4, T5, T6, T7, T8, T9) {
    open spec fn decoding(feed: Feed) -> (Result<Self::Value, DecodeError>, Feed) {
        match T0::decoding(feed) {
            (Ok(a), feed) => match <(T1, T2, T3, T4, T5, T6, T7, T8, T9)>::decoding(feed) {
                (Ok((b, c, d, e, f, g, h, i, j)), feed) => (Ok((a, b, c, d, e, f, g, h, i, j)), feed),
                (Err(e), feed) => (Err(e), feed),
            },
            (Err(e), feed) => (Err(e), feed),
        }
    }

    fn decode<B: DecodeBearer>(bearer: &mut B) -> (r: Result<Self, DecodeError>) {
        let a = match T0::decode(bearer) {
            Ok(a) => a,
            Err(e) => return Err(e),
        };
        match <(T1, T2, T3, T4, T5, T6, T7, T8, T9)>::decode(bearer) {
            Ok((b, c, d, e, f, g, h, i, j)) => Ok((a, b, c, d, e, f, g, h, i, j)),
            Err(e) => Err(e),
        }
    }
}

impl<
    T0: Codec,
    T1: Codec,
    T2: Codec,
    T3: Codec,
    T4: Codec,
    T5: Codec,
    T6: Codec,
    T7: Codec,
    T8: Codec,
    T9: Codec,
> Codec for (T0, T1, T2, T3, T4, T5, T6, T7, T8, T9) {
    open spec fn faithful(&self) -> bool {
        self.0.faithful() && (self.1, self.2, self.3, self.4, self.5, self.6, self.7, self.8, self.9).faithful()
    }

    proof fn law_chunks_within(&self) {
        self.0.law_chunks_within();
        (self.1, self.2, self.3, self.4, self.5, self.6, self.7, self.8, self.9).law_chunks_within();
        lemma_within_add(self.0.wire(), (self.1, self.2, self.3, self.4, self.5, self.6, self.7, self.8, self.9).wire());
    }

    proof fn law_round_trip(&self, feed: Feed, tail: Tail) {
        lemma_take_all_add(tail, self.0.wire(), (self.1, self.2, self.3, self.4, self.5, self.6, self.7, self.8, self.9).wire());
        self.0.law_round_trip(feed, tail);
        (self.1, self.2, self.3, self.4, self.5, self.6, self.7, self.8, self.9).law_round_trip(
            T0::decoding(feed).1,
            tail.take_all(self.0.wire())->0,
        );
    }
}

impl<
    T0: Data,
    T1: Data,
    T2: Data,
    T3: Data,
    T4: Data,
    T5: Data,
    T6: Data,
    T7: Data,
    T8: Data,
    T9: Data,
    T10: Data,
> Data for (T0, T1, T2, T3, T4, T5, T6, T7, T8, T9, T10) {
    type Value = (T0::Value, T1::Value, T2::Value, T3::Value, T4::Value, T5::Value, T6::Value, T7::Value, T8::Value, T9::Value, T10::Value);

    open spec fn value(&self) -> Self::Value {
        (self.0.value(), self.1.value(), self.2.value(), self.3.value(), self.4.value(), self.5.value(), self.6.value(), self.7.value(), self.8.value(), self.9.value(), self.10.value())
    }
}

impl<
    T0: Encode,
    T1: Encode,
    T2: Encode,
    T3: Encode,
    T4: Encode,
    T5: Encode,
    T6: Encode,
    T7: Encode,
    T8: Encode,
    T9: Encode,
    T10: Encode,
> Encode for (T0, T1, T2, T3, T4, T5, T6, T7, T8, T9, T10) {
    open spec fn wire(&self) -> Seq<Seq<u8>> {
        self.0.wire() + (self.1, self.2, self.3, self.4, self.5, self.6, self.7, self.8, self.9, self.10).wire()
    }

    open spec fn size_hint(&self) -> nat {
        self.0.size_hint() + (self.1, self.2, self.3, self.4, self.5, self.6, self.7, self.8, self.9, self.10).size_hint()
    }

    fn encode<B: EncodeBearer>(bearer: &mut B, src: &Self) -> (r: Result<(), EncodeError>) {
        let ghost before = *bearer;
        let ghost rest = (src.1, src.2, src.3, src.4, src.5, src.6, src.7, src.8, src.9, src.10).wire();
        if let Err(e) = T0::encode(bearer, &src.0) {
            proof {
                lemma_encoded_stop(before, *bearer, src.0.wire(), rest, e);
            }
            return Err(e);
        }
        let ghost between = *bearer;
        let r = <(&T1, &T2, &T3, &T4, &T5, &T6, &T7, &T8, &T9, &T10)>::encode(bearer, &(&src.1, &src.2, &src.3, &src.4, &src.5, &src.6, &src.7, &src.8, &src.9, &src.10));
        proof {
            lemma_encoded_then(before, between, *bearer, src.0.wire(), rest, r);
        }
        r
    }

    fn size_of(&self) -> (r: usize) {
        self.0.size_of() + (&self.1, &self.2, &self.3, &self.4, &self.5, &self.6, &self.7, &self.8, &self.9, &self.10).size_of()
    }
}

impl<
    T0: Decode,
    T1: Decode,
    T2: Decode,
    T3: Decode,
    T4: Decode,
    T5: Decode,
    T6: Decode,
    T7: Decode,
    T8: Decode,
    T9: Decode,
    T10: Decode,
> Decode for (T0, T1, T2, T3, T4, T5, T6, T7, T8, T9, T10) {
    open spec fn decoding(feed: Feed) -> (Result<Self::Value, DecodeError>, Feed) {
        match T0::decoding(feed) {
            (Ok(a), feed) => match <(T1, T2, T3, T4, T5, T6, T7, T8, T9, T10)>::decoding(feed) {
                (Ok((b, c, d, e, f, g, h, i, j, k)), feed) => (Ok((a, b, c, d, e, f, g, h, i, j, k)), feed),
                (Err(e), feed) => (Err(e), feed),
            },
            (Err(e), feed) => (Err(e), feed),
        }
    }

    fn decode<B: DecodeBearer>(bearer: &mut B) -> (r: Result<Self, DecodeError>) {
        let a = match T0::decode(bearer) {
            Ok(a) => a,
            Err(e) => return Err(e),
        };
        match <(T1, T2, T3, T4, T5, T6, T7, T8, T9, T10)>::decode(bearer) {
            Ok((b, c, d, e, f, g, h, i, j, k)) => Ok((a, b, c, d, e, f, g, h, i, j, k)),
            Err(e) => Err(e),
        }
    }
}

impl<
    T0: Codec,
    T1: Codec,
    T2: Codec,
    T3: Codec,
    T4: Codec,
    T5: Codec,
    T6: Codec,
    T7: Codec,
    T8: Codec,
    T9: Codec,
    T10: Codec,
> Codec for (T0, T1, T2, T3, T4, T5, T6, T7, T8, T9, T10) {
    open spec fn faithful(&self) -> bool {
        self.0.faithful() && (self.1, self.2, self.3, self.4, self.5, self.6, self.7, self.8, self.9, self.10).faithful()
    }

    proof fn law_chunks_within(&self) {
        self.0.law_chunks_within();
        (self.1, self.2, self.3, self.4, self.5, self.6, self.7, self.8, self.9, self.10).law_chunks_within();
        lemma_within_add(self.0.wire(), (self.1, self.2, self.3, self.4, self.5, self.6, self.7, self.8, self.9, self.10).wire());
    }

    proof fn law_round_trip(&self, feed: Feed, tail: Tail) {
        lemma_take_all_add(tail, self.0.wire(), (self.1, self.2, self.3, self.4, self.5, self.6, self.7, self.8, self.9, self.10).wire());
        self.0.law_round_trip(feed, tail);
        (self.1, self.2, self.3, self.4, self.5, self.6, self.7, self.8, self.9, self.10).law_round_trip(
            T0::decoding(feed).1,
            tail.take_all(self.0.wire())->0,
        );
    }
}

impl<
    T0: Data,
    T1: Data,
    T2: Data,
    T3: Data,
    T4: Data,
    T5: Data,
    T6: Data,
    T7: Data,
    T8: Data,
    T9: Data,
    T10: Data,
    T11: Data,
> Data for (T0, T1, T2, T3, T4, T5, T6, T7, T8, T9, T10, T11) {
    type Value = (T0::Value, T1::Value, T2::Value, T3::Value, T4::Value, T5::Value, T6::Value, T7::Value, T8::Value, T9::Value, T10::Value, T11::Value);

    open spec fn value(&self) -> Self::Value {
        (self.0.value(), self.1.value(), self.2.value(), self.3.value(), self.4.value(), self.5.value(), self.6.value(), self.7.value(), self.8.value(), self.9.value(), self.10.value(), self.11.value())
    }
}

impl<
    T0: Encode,
    T1: Encode,
    T2: Encode,
    T3: Encode,
    T4: Encode,
    T5: Encode,
    T6: Encode,
    T7: Encode,
    T8: Encode,
    T9: Encode,
    T10: Encode,
    T11: Encode,
> Encode for (T0, T1, T2, T3, T4, T5, T6, T7, T8, T9, T10, T11) {
    open spec fn wire(&self) -> Seq<Seq<u8>> {
        self.0.wire() + (self.1, self.2, self.3, self.4, self.5, self.6, self.7, self.8, self.9, self.10, self.11).wire()
    }

    open spec fn size_hint(&self) -> nat {
        self.0.size_hint() + (self.1, self.2, self.3, self.4, self.5, self.6, self.7, self.8, self.9, self.10, self.11).size_hint()
    }

    fn encode<B: EncodeBearer>(bearer: &mut B, src: &Self) -> (r: Result<(), EncodeError>) {
        let ghost before = *bearer;
        let ghost rest = (src.1, src.2, src.3, src.4, src.5, src.6, src.7, src.8, src.9, src.10, src.11).wire();
        if let Err(e) = T0::encode(bearer, &src.0) {
            proof {
                lemma_encoded_stop(before, *bearer, src.0.wire(), rest, e);
            }
            return Err(e);
        }
        let ghost between = *bearer;
        let r = <(&T1, &T2, &T3, &T4, &T5, &T6, &T7, &T8, &T9, &T10, &T11)>::encode(bearer, &(&src.1, &src.2, &src.3, &src.4, &src.5, &src.6, &src.7, &src.8, &src.9, &src.10, &src.11));
        proof {
            lemma_encoded_then(before, between, *bearer, src.0.wire(), rest, r);
        }
        r
    }

    fn size_of(&self) -> (r: usize) {
        self.0.size_of() + (&self.1, &self.2, &self.3, &self.4, &self.5, &self.6, &self.7, &self.8, &self.9, &self.10, &self.11).size_of()
    }
}

impl<
    T0: Decode,
    T1: Decode,
    T2: Decode,
    T3: Decode,
    T4: Decode,
    T5: Decode,
    T6: Decode,
    T7: Decode,
    T8: Decode,
    T9: Decode,
    T10: Decode,
    T11: Decode,
> Decode for (T0, T1, T2, T3, T4, T5, T6, T7, T8, T9, T10, T11) {
    open spec fn decoding(feed: Feed) -> (Result<Self::Value, DecodeError>, Feed) {
        match T0::decoding(feed) {
            (Ok(a), feed) => match <(T1, T2, T3, T4, T5, T6, T7, T8, T9, T10, T11)>::decoding(feed) {
                (Ok((b, c, d, e, f, g, h, i, j, k, l)), feed) => (Ok((a, b, c, d, e, f, g, h, i, j, k, l)), feed),
                (Err(e), feed) => (Err(e), feed),
            },
            (Err(e), feed) => (Err(e), feed),
        }
    }

    fn decode<B: DecodeBearer>(bearer: &mut B) -> (r: Result<Self, DecodeError>) {
        let a = match T0::decode(bearer) {
            Ok(a) => a,
            Err(e) => return Err(e),
        };
        match <(T1, T2, T3, T4, T5, T6, T7, T8, T9, T10, T11)>::decode(bearer) {
            Ok((b, c, d, e, f, g, h, i, j, k, l)) => Ok((a, b, c, d, e, f, g, h, i, j, k, l)),
            Err(e) => Err(e),
        }
    }
}

impl<
    T0: Codec,
    T1: Codec,
    T2: Codec,
    T3: Codec,
    T4: Codec,
    T5: Codec,
    T6: Codec,
    T7: Codec,
    T8: Codec,
    T9: Codec,
    T10: Codec,
    T11: Codec,
> Codec for (T0, T1, T2, T3, T4, T5, T6, T7, T8, T9, T10, T11) {
    open spec fn faithful(&self) -> bool {
        self.0.faithful() && (self.1, self.2, self.3, self.4, self.5, self.6, self.7, self.8, self.9, self.10, self.11).faithful()
    }

    proof fn law_chunks_within(&self) {
        self.0.law_chunks_within();
        (self.1, self.2, self.3, self.4, self.5, self.6, self.7, self.8, self.9, self.10, self.11).law_chunks_within();
        lemma_within_add(self.0.wire(), (self.1, self.2, self.3, self.4, self.5, self.6, self.7, self.8, self.9, self.10, self.11).wire());
    }

    proof fn law_round_trip(&self, feed: Feed, tail: Tail) {
        lemma_take_all_add(tail, self.0.wire(), (self.1, self.2, self.3, self.4, self.5, self.6, self.7, self.8, self.9, self.10, self.11).wire());
        self.0.law_round_trip(feed, tail);
        (self.1, self.2, self.3, self.4, self.5, self.6, self.7, self.8, self.9, self.10, self.11).law_round_trip(
            T0::decoding(feed).1,
            tail.take_all(self.0.wire())->0,
        );
    }
}

} // verus!
