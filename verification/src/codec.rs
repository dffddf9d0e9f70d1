//! Line codec: exactly one serialized value per line of the byte stream.
//!
//! The wire format is newline-delimited: a message is one encoded payload
//! with no embedded line terminator, followed by exactly one terminator.
//! The encoding of values to bytes lives outside this crate; the framing
//! and splitting of lines is verified here.

use vstd::prelude::*;

verus! {

/// The line terminator of the wire format.
pub const LINE_TERMINATOR: u8 = 10;

/// True when the bytes hold no line terminator, so they may stand as the
/// payload of exactly one line.
pub open spec fn single_line(bytes: Seq<u8>) -> bool {
    forall|i: int| 0 <= i < bytes.len() ==> bytes[i] != LINE_TERMINATOR
}

/// The position of the first line terminator, if any.
pub open spec fn first_terminator(bytes: Seq<u8>) -> Option<int>
    decreases bytes.len(),
{
    if bytes.len() == 0 {
        None
    } else if bytes[0] == LINE_TERMINATOR {
        Some(0int)
    } else {
        match first_terminator(bytes.drop_first()) {
            Some(i) => Some(i + 1),
            None => None,
        }
    }
}

/// `first_terminator` finds the least terminator position, and fails
/// only on a single line.
pub proof fn lemma_first_terminator_characterization(bytes: Seq<u8>)
    ensures
        match first_terminator(bytes) {
            Some(i) => 0 <= i < bytes.len() && bytes[i] == LINE_TERMINATOR && (forall|j: int|
                0 <= j < i ==> bytes[j] != LINE_TERMINATOR),
            None => single_line(bytes),
        },
    decreases bytes.len(),
{
    if bytes.len() > 0 && bytes[0] != LINE_TERMINATOR {
        lemma_first_terminator_characterization(bytes.drop_first());
        assert(forall|j: int| 1 <= j < bytes.len() ==> bytes[j] == bytes.drop_first()[j - 1]);
    }
}

/// Does the payload fit on one line?
pub fn check_single_line(payload: &Vec<u8>) -> (r: bool)
    ensures
        r == single_line(payload@),
{
    let n = payload.len();
    let mut i: usize = 0;
    while i < n
        invariant
            n == payload@.len(),
            i <= n,
            forall|j: int| 0 <= j < i ==> payload@[j] != LINE_TERMINATOR,
        decreases n - i,
    {
        if payload[i] == LINE_TERMINATOR {
            return false;
        }
        i = i + 1;
    }
    true
}

/// Frame a payload that fits on one line: append exactly one terminator.
pub fn frame_line(payload: Vec<u8>) -> (r: Vec<u8>)
    requires
        single_line(payload@),
        payload@.len() < usize::MAX,
    ensures
        r@ == payload@.push(LINE_TERMINATOR),
{
    let mut framed = payload;
    framed.push(LINE_TERMINATOR);
    framed
}

/// Frame a payload after checking it: `None` exactly when the payload
/// holds an embedded line terminator, which the encoding forbids.
pub fn try_frame_line(payload: Vec<u8>) -> (r: Option<Vec<u8>>)
    requires
        payload@.len() < usize::MAX,
    ensures
        single_line(payload@) ==> (r matches Some(framed) && framed@ == payload@.push(
            LINE_TERMINATOR,
        )),
        !single_line(payload@) ==> r is None,
{
    if check_single_line(&payload) {
        Some(frame_line(payload))
    } else {
        None
    }
}

/// Split one complete line off the front of the read buffer: everything
/// before the first terminator is returned as the line's payload, the
/// terminator is consumed, and the buffer keeps the bytes after it. With
/// no complete line in the buffer, nothing changes: more bytes must
/// arrive first.
pub fn extract_line(buf: &mut Vec<u8>) -> (r: Option<Vec<u8>>)
    ensures
        (r is Some) == (first_terminator(old(buf)@) is Some),
        r matches Some(line) ==> {
            let k = first_terminator(old(buf)@)->Some_0;
            line@ == old(buf)@.take(k) && final(buf)@ == old(buf)@.skip(k + 1)
        },
        r is None ==> final(buf)@ == old(buf)@,
{
    let n = buf.len();
    let mut k: usize = 0;
    while k < n && buf[k] != LINE_TERMINATOR
        invariant
            n == buf@.len(),
            buf@ == old(buf)@,
            k <= n,
            forall|j: int| 0 <= j < k ==> buf@[j] != LINE_TERMINATOR,
        decreases n - k,
    {
        k = k + 1;
    }
    if k == n {
        proof {
            lemma_first_terminator_characterization(buf@);
            if first_terminator(buf@) is Some {
                let i = first_terminator(buf@)->Some_0;
                assert(buf@[i] != LINE_TERMINATOR);
            }
        }
        return None;
    }
    proof {
        lemma_first_terminator_characterization(buf@);
        match first_terminator(buf@) {
            Some(i) => {
                assert(i == k as int) by {
                    if i < k as int {
                        assert(buf@[i] != LINE_TERMINATOR);
                    } else if i > k as int {
                        assert(buf@[k as int] != LINE_TERMINATOR);
                    }
                }
            },
            None => {
                assert(buf@[k as int] == LINE_TERMINATOR);
                assert(false);
            },
        }
    }
    let mut line: Vec<u8> = Vec::new();
    let mut j: usize = 0;
    while j < k
        invariant
            n == buf@.len(),
            buf@ == old(buf)@,
            k < n,
            j <= k,
            line@.len() == j,
            forall|t: int| 0 <= t < j ==> line@[t] == buf@[t],
        decreases k - j,
    {
        line.push(buf[j]);
        j = j + 1;
    }
    let mut rest: Vec<u8> = Vec::new();
    let mut t: usize = k + 1;
    while t < n
        invariant
            n == buf@.len(),
            buf@ == old(buf)@,
            k < n,
            k + 1 <= t <= n,
            rest@.len() == t - k - 1,
            forall|u: int| 0 <= u < t - k - 1 ==> rest@[u] == buf@[k + 1 + u],
        decreases n - t,
    {
        rest.push(buf[t]);
        t = t + 1;
    }
    *buf = rest;
    proof {
        assert(line@ =~= old(buf)@.take(k as int));
        assert(final(buf)@ =~= old(buf)@.skip(k + 1));
    }
    Some(line)
}

/// Law (framing round trip): the wire format is self-delimiting. A framed
/// payload followed by whatever else has arrived splits back into exactly
/// that payload and exactly those remaining bytes.
pub proof fn lemma_frame_round_trip(payload: Seq<u8>, rest: Seq<u8>)
    requires
        single_line(payload),
    ensures
        first_terminator(payload.push(LINE_TERMINATOR) + rest) == Some(payload.len() as int),
        (payload.push(LINE_TERMINATOR) + rest).take(payload.len() as int) == payload,
        (payload.push(LINE_TERMINATOR) + rest).skip(payload.len() as int + 1) == rest,
{
    let framed = payload.push(LINE_TERMINATOR) + rest;
    assert(framed[payload.len() as int] == LINE_TERMINATOR);
    assert(forall|j: int| 0 <= j < payload.len() ==> framed[j] == payload[j]);
    lemma_first_terminator_characterization(framed);
    match first_terminator(framed) {
        Some(i) => {
            assert(i == payload.len() as int) by {
                if i < payload.len() as int {
                    assert(framed[i] == payload[i]);
                } else if i > payload.len() as int {
                    assert(framed[payload.len() as int] != LINE_TERMINATOR);
                }
            }
        },
        None => {
            assert(framed[payload.len() as int] == LINE_TERMINATOR);
            assert(false);
        },
    }
    assert(framed.take(payload.len() as int) =~= payload);
    assert(framed.skip(payload.len() as int + 1) =~= rest);
}

} // verus!
