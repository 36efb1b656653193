//! How tuples are stored: as their values, one after the other. What is stated of longer
//! tuples is stated of their first value and the tuple of the others.

use vstd::prelude::*;

use crate::codec::Codec;
use crate::decode::{Data, Decode};
use crate::encode::Encode;
use crate::stream::Feed;

verus! {

/// A pair is its first value and then its second.
pub proof fn law_tuple_2<T0: Codec, T1: Codec>(value: (T0, T1), feed: Feed)
    ensures
        value.value() == (value.0.value(), value.1.value()),
        value.faithful() <==> value.0.faithful() && value.1.faithful(),
        value.wire() == value.0.wire() + value.1.wire(),
        value.size_hint() == value.0.size_hint() + value.1.size_hint(),
        ({
            let (first, after) = T0::decoding(feed);
            let (rest, end) = T1::decoding(after);
            let (r, left) = <(T0, T1)>::decoding(feed);
            if first is Err {
                r is Err && r->Err_0 == first->Err_0 && left == after
            } else if rest is Err {
                r is Err && r->Err_0 == rest->Err_0 && left == end
            } else {
                r is Ok && r->Ok_0 == (first->Ok_0, rest->Ok_0) && left == end
            }
        }),
{
}

/// A tuple of 3 values.
pub proof fn law_tuple_3<
    T0: Codec,
    T1: Codec,
    T2: Codec,
>(value: (T0, T1, T2), feed: Feed)
    ensures
        value.value() == (
            value.0.value(),
            value.1.value(),
            value.2.value(),
        ),
        ({
            let others = (
                value.1,
                value.2,
            );
            &&& value.faithful() <==> value.0.faithful() && others.faithful()
            &&& value.wire() == value.0.wire() + others.wire()
            &&& value.size_hint() == value.0.size_hint() + others.size_hint()
        }),
        ({
            let (first, after) = T0::decoding(feed);
            let (rest, end) = <(T1, T2)>::decoding(after);
            let (r, left) = <(T0, T1, T2)>::decoding(feed);
            if first is Err {
                r is Err && r->Err_0 == first->Err_0 && left == after
            } else if rest is Err {
                r is Err && r->Err_0 == rest->Err_0 && left == end
            } else {
                &&& r is Ok
                &&& r->Ok_0 == (
                    first->Ok_0,
                    rest->Ok_0.0,
                    rest->Ok_0.1,
                )
                &&& left == end
            }
        }),
{
}

/// A tuple of 4 values.
pub proof fn law_tuple_4<
    T0: Codec,
    T1: Codec,
    T2: Codec,
    T3: Codec,
>(value: (T0, T1, T2, T3), feed: Feed)
    ensures
        value.value() == (
            value.0.value(),
            value.1.value(),
            value.2.value(),
            value.3.value(),
        ),
        ({
            let others = (
                value.1,
                value.2,
                value.3,
            );
            &&& value.faithful() <==> value.0.faithful() && others.faithful()
            &&& value.wire() == value.0.wire() + others.wire()
            &&& value.size_hint() == value.0.size_hint() + others.size_hint()
        }),
        ({
            let (first, after) = T0::decoding(feed);
            let (rest, end) = <(T1, T2, T3)>::decoding(after);
            let (r, left) = <(T0, T1, T2, T3)>::decoding(feed);
            if first is Err {
                r is Err && r->Err_0 == first->Err_0 && left == after
            } else if rest is Err {
                r is Err && r->Err_0 == rest->Err_0 && left == end
            } else {
                &&& r is Ok
                &&& r->Ok_0 == (
                    first->Ok_0,
                    rest->Ok_0.0,
                    rest->Ok_0.1,
                    rest->Ok_0.2,
                )
                &&& left == end
            }
        }),
{
}

/// A tuple of 5 values.
pub proof fn law_tuple_5<
    T0: Codec,
    T1: Codec,
    T2: Codec,
    T3: Codec,
    T4: Codec,
>(value: (T0, T1, T2, T3, T4), feed: Feed)
    ensures
        value.value() == (
            value.0.value(),
            value.1.value(),
            value.2.value(),
            value.3.value(),
            value.4.value(),
        ),
        ({
            let others = (
                value.1,
                value.2,
                value.3,
                value.4,
            );
            &&& value.faithful() <==> value.0.faithful() && others.faithful()
            &&& value.wire() == value.0.wire() + others.wire()
            &&& value.size_hint() == value.0.size_hint() + others.size_hint()
        }),
        ({
            let (first, after) = T0::decoding(feed);
            let (rest, end) = <(T1, T2, T3, T4)>::decoding(after);
            let (r, left) = <(T0, T1, T2, T3, T4)>::decoding(feed);
            if first is Err {
                r is Err && r->Err_0 == first->Err_0 && left == after
            } else if rest is Err {
                r is Err && r->Err_0 == rest->Err_0 && left == end
            } else {
                &&& r is Ok
                &&& r->Ok_0 == (
                    first->Ok_0,
                    rest->Ok_0.0,
                    rest->Ok_0.1,
                    rest->Ok_0.2,
                    rest->Ok_0.3,
                )
                &&& left == end
            }
        }),
{
}

/// A tuple of 6 values.
pub proof fn law_tuple_6<
    T0: Codec,
    T1: Codec,
    T2: Codec,
    T3: Codec,
    T4: Codec,
    T5: Codec,
>(value: (T0, T1, T2, T3, T4, T5), feed: Feed)
    ensures
        value.value() == (
            value.0.value(),
            value.1.value(),
            value.2.value(),
            value.3.value(),
            value.4.value(),
            value.5.value(),
        ),
        ({
            let others = (
                value.1,
                value.2,
                value.3,
                value.4,
                value.5,
            );
            &&& value.faithful() <==> value.0.faithful() && others.faithful()
            &&& value.wire() == value.0.wire() + others.wire()
            &&& value.size_hint() == value.0.size_hint() + others.size_hint()
        }),
        ({
            let (first, after) = T0::decoding(feed);
            let (rest, end) = <(T1, T2, T3, T4, T5)>::decoding(after);
            let (r, left) = <(T0, T1, T2, T3, T4, T5)>::decoding(feed);
            if first is Err {
                r is Err && r->Err_0 == first->Err_0 && left == after
            } else if rest is Err {
                r is Err && r->Err_0 == rest->Err_0 && left == end
            } else {
                &&& r is Ok
                &&& r->Ok_0 == (
                    first->Ok_0,
                    rest->Ok_0.0,
                    rest->Ok_0.1,
                    rest->Ok_0.2,
                    rest->Ok_0.3,
                    rest->Ok_0.4,
                )
                &&& left == end
            }
        }),
{
}

/// A tuple of 7 values.
pub proof fn law_tuple_7<
    T0: Codec,
    T1: Codec,
    T2: Codec,
    T3: Codec,
    T4: Codec,
    T5: Codec,
    T6: Codec,
>(value: (T0, T1, T2, T3, T4, T5, T6), feed: Feed)
    ensures
        value.value() == (
            value.0.value(),
            value.1.value(),
            value.2.value(),
            value.3.value(),
            value.4.value(),
            value.5.value(),
            value.6.value(),
        ),
        ({
            let others = (
                value.1,
                value.2,
                value.3,
                value.4,
                value.5,
                value.6,
            );
            &&& value.faithful() <==> value.0.faithful() && others.faithful()
            &&& value.wire() == value.0.wire() + others.wire()
            &&& value.size_hint() == value.0.size_hint() + others.size_hint()
        }),
        ({
            let (first, after) = T0::decoding(feed);
            let (rest, end) = <(T1, T2, T3, T4, T5, T6)>::decoding(after);
            let (r, left) = <(T0, T1, T2, T3, T4, T5, T6)>::decoding(feed);
            if first is Err {
                r is Err && r->Err_0 == first->Err_0 && left == after
            } else if rest is Err {
                r is Err && r->Err_0 == rest->Err_0 && left == end
            } else {
                &&& r is Ok
                &&& r->Ok_0 == (
                    first->Ok_0,
                    rest->Ok_0.0,
                    rest->Ok_0.1,
                    rest->Ok_0.2,
                    rest->Ok_0.3,
                    rest->Ok_0.4,
                    rest->Ok_0.5,
                )
                &&& left == end
            }
        }),
{
}

/// A tuple of 8 values.
pub proof fn law_tuple_8<
    T0: Codec,
    T1: Codec,
    T2: Codec,
    T3: Codec,
    T4: Codec,
    T5: Codec,
    T6: Codec,
    T7: Codec,
>(value: (T0, T1, T2, T3, T4, T5, T6, T7), feed: Feed)
    ensures
        value.value() == (
            value.0.value(),
            value.1.value(),
            value.2.value(),
            value.3.value(),
            value.4.value(),
            value.5.value(),
            value.6.value(),
            value.7.value(),
        ),
        ({
            let others = (
                value.1,
                value.2,
                value.3,
                value.4,
                value.5,
                value.6,
                value.7,
            );
            &&& value.faithful() <==> value.0.faithful() && others.faithful()
            &&& value.wire() == value.0.wire() + others.wire()
            &&& value.size_hint() == value.0.size_hint() + others.size_hint()
        }),
        ({
            let (first, after) = T0::decoding(feed);
            let (rest, end) = <(T1, T2, T3, T4, T5, T6, T7)>::decoding(after);
            let (r, left) = <(T0, T1, T2, T3, T4, T5, T6, T7)>::decoding(feed);
            if first is Err {
                r is Err && r->Err_0 == first->Err_0 && left == after
            } else if rest is Err {
                r is Err && r->Err_0 == rest->Err_0 && left == end
            } else {
                &&& r is Ok
                &&& r->Ok_0 == (
                    first->Ok_0,
                    rest->Ok_0.0,
                    rest->Ok_0.1,
                    rest->Ok_0.2,
                    rest->Ok_0.3,
                    rest->Ok_0.4,
                    rest->Ok_0.5,
                    rest->Ok_0.6,
                )
                &&& left == end
            }
        }),
{
}

/// A tuple of 9 values.
pub proof fn law_tuple_9<
    T0: Codec,
    T1: Codec,
    T2: Codec,
    T3: Codec,
    T4: Codec,
    T5: Codec,
    T6: Codec,
    T7: Codec,
    T8: Codec,
>(value: (T0, T1, T2, T3, T4, T5, T6, T7, T8), feed: Feed)
    ensures
        value.value() == (
            value.0.value(),
            value.1.value(),
            value.2.value(),
            value.3.value(),
            value.4.value(),
            value.5.value(),
            value.6.value(),
            value.7.value(),
            value.8.value(),
        ),
        ({
            let others = (
                value.1,
                value.2,
                value.3,
                value.4,
                value.5,
                value.6,
                value.7,
                value.8,
            );
            &&& value.faithful() <==> value.0.faithful() && others.faithful()
            &&& value.wire() == value.0.wire() + others.wire()
            &&& value.size_hint() == value.0.size_hint() + others.size_hint()
        }),
        ({
            let (first, after) = T0::decoding(feed);
            let (rest, end) = <(T1, T2, T3, T4, T5, T6, T7, T8)>::decoding(after);
            let (r, left) = <(T0, T1, T2, T3, T4, T5, T6, T7, T8)>::decoding(feed);
            if first is Err {
                r is Err && r->Err_0 == first->Err_0 && left == after
            } else if rest is Err {
                r is Err && r->Err_0 == rest->Err_0 && left == end
            } else {
                &&& r is Ok
                &&& r->Ok_0 == (
                    first->Ok_0,
                    rest->Ok_0.0,
                    rest->Ok_0.1,
                    rest->Ok_0.2,
                    rest->Ok_0.3,
                    rest->Ok_0.4,
                    rest->Ok_0.5,
                    rest->Ok_0.6,
                    rest->Ok_0.7,
                )
                &&& left == end
            }
        }),
{
}

/// A tuple of 10 values.
pub proof fn law_tuple_10<
    T0: Codec,
    T1: Codec,
    T2: Codec,
    T3: Codec,
    T4: Codec,
    T5: Codec,
    T6: Codec,
    T7: Codec,
    T8: Codec,
    T9: Codec,
>(value: (T0, T1, T2, T3, T4, T5, T6, T7, T8, T9), feed: Feed)
    ensures
        value.value() == (
            value.0.value(),
            value.1.value(),
            value.2.value(),
            value.3.value(),
            value.4.value(),
            value.5.value(),
            value.6.value(),
            value.7.value(),
            value.8.value(),
            value.9.value(),
        ),
        ({
            let others = (
                value.1,
                value.2,
                value.3,
                value.4,
                value.5,
                value.6,
                value.7,
                value.8,
                value.9,
            );
            &&& value.faithful() <==> value.0.faithful() && others.faithful()
            &&& value.wire() == value.0.wire() + others.wire()
            &&& value.size_hint() == value.0.size_hint() + others.size_hint()
        }),
        ({
            let (first, after) = T0::decoding(feed);
            let (rest, end) = <(T1, T2, T3, T4, T5, T6, T7, T8, T9)>::decoding(after);
            let (r, left) = <(T0, T1, T2, T3, T4, T5, T6, T7, T8, T9)>::decoding(feed);
            if first is Err {
                r is Err && r->Err_0 == first->Err_0 && left == after
            } else if rest is Err {
                r is Err && r->Err_0 == rest->Err_0 && left == end
            } else {
                &&& r is Ok
                &&& r->Ok_0 == (
                    first->Ok_0,
                    rest->Ok_0.0,
                    rest->Ok_0.1,
                    rest->Ok_0.2,
                    rest->Ok_0.3,
                    rest->Ok_0.4,
                    rest->Ok_0.5,
                    rest->Ok_0.6,
                    rest->Ok_0.7,
                    rest->Ok_0.8,
                )
                &&& left == end
            }
        }),
{
}

/// A tuple of 11 values.
pub proof fn law_tuple_11<
    T0: Codec,
    T1: Codec,
    T2: Codec,
    T3: Codec,
    T4: Codec,
    T5: Codec,
    T6: Codec,
    T7: Codec,
    T8: Codec,
    T9: Codec,
    T10: Codec,
>(value: (T0, T1, T2, T3, T4, T5, T6, T7, T8, T9, T10), feed: Feed)
    ensures
        value.value() == (
            value.0.value(),
            value.1.value(),
            value.2.value(),
            value.3.value(),
            value.4.value(),
            value.5.value(),
            value.6.value(),
            value.7.value(),
            value.8.value(),
            value.9.value(),
            value.10.value(),
        ),
        ({
            let others = (
                value.1,
                value.2,
                value.3,
                value.4,
                value.5,
                value.6,
                value.7,
                value.8,
                value.9,
                value.10,
            );
            &&& value.faithful() <==> value.0.faithful() && others.faithful()
            &&& value.wire() == value.0.wire() + others.wire()
            &&& value.size_hint() == value.0.size_hint() + others.size_hint()
        }),
        ({
            let (first, after) = T0::decoding(feed);
            let (rest, end) = <(T1, T2, T3, T4, T5, T6, T7, T8, T9, T10)>::decoding(after);
            let (r, left) = <(T0, T1, T2, T3, T4, T5, T6, T7, T8, T9, T10)>::decoding(feed);
            if first is Err {
                r is Err && r->Err_0 == first->Err_0 && left == after
            } else if rest is Err {
                r is Err && r->Err_0 == rest->Err_0 && left == end
            } else {
                &&& r is Ok
                &&& r->Ok_0 == (
                    first->Ok_0,
                    rest->Ok_0.0,
                    rest->Ok_0.1,
                    rest->Ok_0.2,
                    rest->Ok_0.3,
                    rest->Ok_0.4,
                    rest->Ok_0.5,
                    rest->Ok_0.6,
                    rest->Ok_0.7,
                    rest->Ok_0.8,
                    rest->Ok_0.9,
                )
                &&& left == end
            }
        }),
{
}

/// A tuple of 12 values.
pub proof fn law_tuple_12<
    T0: Codec,
    T1: Codec,
    T2: Codec,
    T3: Codec,
    T4: Codec,
    T5: Codec,
    T6: Codec,
    T7: Codec,
    T8: Codec,
    T9: Codec,
    T10: Codec,
    T11: Codec,
>(value: (T0, T1, T2, T3, T4, T5, T6, T7, T8, T9, T10, T11), feed: Feed)
    ensures
        value.value() == (
            value.0.value(),
            value.1.value(),
            value.2.value(),
            value.3.value(),
            value.4.value(),
            value.5.value(),
            value.6.value(),
            value.7.value(),
            value.8.value(),
            value.9.value(),
            value.10.value(),
            value.11.value(),
        ),
        ({
            let others = (
                value.1,
                value.2,
                value.3,
                value.4,
                value.5,
                value.6,
                value.7,
                value.8,
                value.9,
                value.10,
                value.11,
            );
            &&& value.faithful() <==> value.0.faithful() && others.faithful()
            &&& value.wire() == value.0.wire() + others.wire()
            &&& value.size_hint() == value.0.size_hint() + others.size_hint()
        }),
        ({
            let (first, after) = T0::decoding(feed);
            let (rest, end) = <(T1, T2, T3, T4, T5, T6, T7, T8, T9, T10, T11)>::decoding(after);
            let (r, left) = <(T0, T1, T2, T3, T4, T5, T6, T7, T8, T9, T10, T11)>::decoding(feed);
            if first is Err {
                r is Err && r->Err_0 == first->Err_0 && left == after
            } else if rest is Err {
                r is Err && r->Err_0 == rest->Err_0 && left == end
            } else {
                &&& r is Ok
                &&& r->Ok_0 == (
                    first->Ok_0,
                    rest->Ok_0.0,
                    rest->Ok_0.1,
                    rest->Ok_0.2,
                    rest->Ok_0.3,
                    rest->Ok_0.4,
                    rest->Ok_0.5,
                    rest->Ok_0.6,
                    rest->Ok_0.7,
                    rest->Ok_0.8,
                    rest->Ok_0.9,
                    rest->Ok_0.10,
                )
                &&& left == end
            }
        }),
{
}

} // verus!
