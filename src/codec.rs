//! The /16 stream: 256 records in ascending third-octet order, each a tag 0
//! (absent /24) or a tag 1 followed by 256 outcome encodings.
use vstd::prelude::*;
use crate::outcome::{PingResult, DecodeError, encode_outcome_spec, decode_outcome_spec, lemma_outcome_round_trip};
use crate::results::{Slash24Result, Slash16Result, wf16, wf24, view24};

verus! {

/// The encodings of a run of outcomes, one after another.
pub open spec fn encode_outcomes_spec(s: Seq<PingResult>) -> Seq<u8>
    decreases s.len(),
{
    if s.len() == 0 {
        Seq::empty()
    } else {
        encode_outcomes_spec(s.drop_last()) + encode_outcome_spec(s.last())
    }
}

/// The record of one /24 slot.
pub open spec fn encode_slot_spec(o: Option<Seq<PingResult>>) -> Seq<u8> {
    match o {
        None => seq![0u8],
        Some(s) => seq![1u8] + encode_outcomes_spec(s),
    }
}

/// The records of a run of slots, one after another.
pub open spec fn encode_slash16_spec(v: Seq<Option<Seq<PingResult>>>) -> Seq<u8>
    decreases v.len(),
{
    if v.len() == 0 {
        Seq::empty()
    } else {
        encode_slash16_spec(v.drop_last()) + encode_slot_spec(v.last())
    }
}

/// Reads `n` outcomes from `pos`: the outcomes and the position after the last.
pub open spec fn decode_outcomes_spec(b: Seq<u8>, pos: int, n: nat) -> Result<(Seq<PingResult>, int), DecodeError>
    decreases n,
{
    if n == 0 {
        Ok((Seq::empty(), pos))
    } else {
        match decode_outcomes_spec(b, pos, (n - 1) as nat) {
            Err(e) => Err(e),
            Ok((os, p)) => match decode_outcome_spec(b, p) {
                Err(e) => Err(e),
                Ok((o, q)) => Ok((os.push(o), q)),
            },
        }
    }
}

/// Reads one /24 record at `pos`.
pub open spec fn decode_slot_spec(b: Seq<u8>, pos: int) -> Result<(Option<Seq<PingResult>>, int), DecodeError> {
    if pos < 0 || pos >= b.len() {
        Err(DecodeError::Truncated)
    } else if b[pos] == 0 {
        Ok((None, pos + 1))
    } else if b[pos] == 1 {
        match decode_outcomes_spec(b, pos + 1, 256) {
            Err(e) => Err(e),
            Ok((os, q)) => Ok((Some(os), q)),
        }
    } else {
        Err(DecodeError::CorruptSlash24)
    }
}

/// Reads `n` /24 records from `pos`.
pub open spec fn decode_slots_spec(b: Seq<u8>, pos: int, n: nat) -> Result<(Seq<Option<Seq<PingResult>>>, int), DecodeError>
    decreases n,
{
    if n == 0 {
        Ok((Seq::empty(), pos))
    } else {
        match decode_slots_spec(b, pos, (n - 1) as nat) {
            Err(e) => Err(e),
            Ok((v, p)) => match decode_slot_spec(b, p) {
                Err(e) => Err(e),
                Ok((o, q)) => Ok((v.push(o), q)),
            },
        }
    }
}

/// Reads a whole /16 stream: 256 records that end exactly at the end of the stream.
pub open spec fn decode_slash16_spec(b: Seq<u8>) -> Result<Seq<Option<Seq<PingResult>>>, DecodeError> {
    match decode_slots_spec(b, 0, 256) {
        Err(e) => Err(e),
        Ok((v, q)) => if q == b.len() {
            Ok(v)
        } else {
            Err(DecodeError::TrailingBytes)
        },
    }
}

proof fn lemma_encode_outcomes_concat(a: Seq<PingResult>, c: Seq<PingResult>)
    ensures
        encode_outcomes_spec(a + c) == encode_outcomes_spec(a) + encode_outcomes_spec(c),
    decreases c.len(),
{
    if c.len() == 0 {
        assert(a + c =~= a);
        assert(encode_outcomes_spec(a) + encode_outcomes_spec(c) =~= encode_outcomes_spec(a));
    } else {
        lemma_encode_outcomes_concat(a, c.drop_last());
        assert((a + c).drop_last() =~= a + c.drop_last());
        assert((a + c).last() == c.last());
        assert(encode_outcomes_spec(a + c) =~= encode_outcomes_spec(a) + encode_outcomes_spec(c));
    }
}

proof fn lemma_encode_slots_concat(a: Seq<Option<Seq<PingResult>>>, c: Seq<Option<Seq<PingResult>>>)
    ensures
        encode_slash16_spec(a + c) == encode_slash16_spec(a) + encode_slash16_spec(c),
    decreases c.len(),
{
    if c.len() == 0 {
        assert(a + c =~= a);
        assert(encode_slash16_spec(a) + encode_slash16_spec(c) =~= encode_slash16_spec(a));
    } else {
        lemma_encode_slots_concat(a, c.drop_last());
        assert((a + c).drop_last() =~= a + c.drop_last());
        assert((a + c).last() == c.last());
        assert(encode_slash16_spec(a + c) =~= encode_slash16_spec(a) + encode_slash16_spec(c));
    }
}

/// The first `k` outcomes read back from the encoding of a run, whatever
/// precedes or follows it.
proof fn lemma_outcomes_round_trip(s: Seq<PingResult>, pre: Seq<u8>, post: Seq<u8>, k: nat)
    requires
        k <= s.len(),
    ensures
        decode_outcomes_spec(pre + encode_outcomes_spec(s) + post, pre.len() as int, k)
            == Ok::<(Seq<PingResult>, int), DecodeError>(
            (s.take(k as int), (pre.len() + encode_outcomes_spec(s.take(k as int)).len()) as int),
        ),
    decreases k,
{
    let b = pre + encode_outcomes_spec(s) + post;
    if k == 0 {
        assert(s.take(0) =~= Seq::<PingResult>::empty());
    } else {
        let j = (k - 1) as nat;
        lemma_outcomes_round_trip(s, pre, post, j);
        let p = (pre.len() + encode_outcomes_spec(s.take(j as int)).len()) as int;
        let o = s[j as int];
        let t = s.subrange(k as int, s.len() as int);
        assert(s.take(k as int).drop_last() =~= s.take(j as int));
        assert(s.take(k as int).last() == o);
        assert(s =~= s.take(k as int) + t);
        lemma_encode_outcomes_concat(s.take(k as int), t);
        let pre2 = pre + encode_outcomes_spec(s.take(j as int));
        let post2 = encode_outcomes_spec(t) + post;
        assert(b =~= pre2 + encode_outcome_spec(o) + post2);
        lemma_outcome_round_trip(o, pre2, post2);
        assert(s.take(j as int).push(o) =~= s.take(k as int));
    }
}

proof fn lemma_slot_round_trip(o: Option<Seq<PingResult>>, pre: Seq<u8>, post: Seq<u8>)
    requires
        o matches Some(s) ==> s.len() == 256,
    ensures
        decode_slot_spec(pre + encode_slot_spec(o) + post, pre.len() as int)
            == Ok::<(Option<Seq<PingResult>>, int), DecodeError>((o, (pre.len() + encode_slot_spec(o).len()) as int)),
{
    let b = pre + encode_slot_spec(o) + post;
    assert(b[pre.len() as int] == encode_slot_spec(o)[0]);
    if let Some(s) = o {
        let pre1 = pre + seq![1u8];
        assert(b =~= pre1 + encode_outcomes_spec(s) + post);
        lemma_outcomes_round_trip(s, pre1, post, 256);
        assert(s.take(256) =~= s);
    }
}

proof fn lemma_slots_round_trip(v: Seq<Option<Seq<PingResult>>>, pre: Seq<u8>, post: Seq<u8>, k: nat)
    requires
        k <= v.len(),
        forall|c: int| 0 <= c < v.len() && #[trigger] v[c] is Some ==> v[c]->0.len() == 256,
    ensures
        decode_slots_spec(pre + encode_slash16_spec(v) + post, pre.len() as int, k)
            == Ok::<(Seq<Option<Seq<PingResult>>>, int), DecodeError>(
            (v.take(k as int), (pre.len() + encode_slash16_spec(v.take(k as int)).len()) as int),
        ),
    decreases k,
{
    let b = pre + encode_slash16_spec(v) + post;
    if k == 0 {
        assert(v.take(0) =~= Seq::<Option<Seq<PingResult>>>::empty());
    } else {
        let j = (k - 1) as nat;
        lemma_slots_round_trip(v, pre, post, j);
        let o = v[j as int];
        let t = v.subrange(k as int, v.len() as int);
        assert(v.take(k as int).drop_last() =~= v.take(j as int));
        assert(v.take(k as int).last() == o);
        assert(v =~= v.take(k as int) + t);
        lemma_encode_slots_concat(v.take(k as int), t);
        let pre2 = pre + encode_slash16_spec(v.take(j as int));
        let post2 = encode_slash16_spec(t) + post;
        assert(b =~= pre2 + encode_slot_spec(o) + post2);
        lemma_slot_round_trip(o, pre2, post2);
        assert(v.take(j as int).push(o) =~= v.take(k as int));
    }
}

/// The 256 records of an encoded /16 end exactly where the stream ends.
pub proof fn lemma_stream_consumed_exactly(v: Seq<Option<Seq<PingResult>>>)
    requires
        wf16(v),
    ensures
        decode_slots_spec(encode_slash16_spec(v), 0, 256)
            == Ok::<(Seq<Option<Seq<PingResult>>>, int), DecodeError>((v, encode_slash16_spec(v).len() as int)),
{
    let e = Seq::<u8>::empty();
    assert(e + encode_slash16_spec(v) + e =~= encode_slash16_spec(v));
    lemma_slots_round_trip(v, e, e, 256);
    assert(v.take(256) =~= v);
}

/// The stream of a /16 delimits itself: with any bytes after it, its 256 records
/// still end exactly where the encoding ends, so the stream reads as the same /16
/// when nothing follows and fails with `TrailingBytes` when something does.
pub proof fn lemma_stream_self_delimiting(v: Seq<Option<Seq<PingResult>>>, extra: Seq<u8>)
    requires
        wf16(v),
    ensures
        decode_slots_spec(encode_slash16_spec(v) + extra, 0, 256)
            == Ok::<(Seq<Option<Seq<PingResult>>>, int), DecodeError>((v, encode_slash16_spec(v).len() as int)),
        decode_slash16_spec(encode_slash16_spec(v) + extra) == if extra.len() == 0 {
            Ok::<Seq<Option<Seq<PingResult>>>, DecodeError>(v)
        } else {
            Err::<Seq<Option<Seq<PingResult>>>, DecodeError>(DecodeError::TrailingBytes)
        },
{
    let e = Seq::<u8>::empty();
    assert(e + encode_slash16_spec(v) + extra =~= encode_slash16_spec(v) + extra);
    lemma_slots_round_trip(v, e, extra, 256);
    assert(v.take(256) =~= v);
}

/// Every /24 record that decodes holds exactly 256 outcomes, and a decoded /16
/// has 256 slots.
pub proof fn lemma_decoded_wf(b: Seq<u8>)
    ensures
        decode_slash16_spec(b) matches Ok(v) ==> wf16(v),
{
    lemma_slots_wf(b, 0, 256);
}

proof fn lemma_slots_wf(b: Seq<u8>, pos: int, n: nat)
    ensures
        decode_slots_spec(b, pos, n) matches Ok((v, _)) ==> v.len() == n && forall|c: int|
            0 <= c < n && #[trigger] v[c] is Some ==> wf24(v[c]->0),
    decreases n,
{
    if n > 0 {
        lemma_slots_wf(b, pos, (n - 1) as nat);
        if let Ok((v0, p)) = decode_slots_spec(b, pos, (n - 1) as nat) {
            if p >= 0 && p < b.len() && b[p] == 1 {
                lemma_outcomes_len(b, p + 1, 256);
            }
            if let Ok((v, _)) = decode_slots_spec(b, pos, n) {
                assert forall|c: int| 0 <= c < n && #[trigger] v[c] is Some implies wf24(v[c]->0) by {
                    if c < n - 1 {
                        assert(v[c] == v0[c]);
                    }
                }
            }
        }
    }
}

proof fn lemma_outcome_bytes(b: Seq<u8>, p: int)
    ensures
        decode_outcome_spec(b, p) matches Ok((o, q)) ==> p < q <= b.len() && b.subrange(p, q)
            == encode_outcome_spec(o),
{
    if let Ok((o, q)) = decode_outcome_spec(b, p) {
        if let PingResult::Success(rtt) = o {
            assert(rtt % 256 == b[p + 1] && rtt / 256 == b[p + 2]);
        }
        assert(b.subrange(p, q) =~= encode_outcome_spec(o));
    }
}

/// Outcomes that decode are exactly the bytes of their encoding.
pub proof fn lemma_outcomes_bytes(b: Seq<u8>, pos: int, n: nat)
    requires
        0 <= pos <= b.len(),
    ensures
        decode_outcomes_spec(b, pos, n) matches Ok((os, q)) ==> pos <= q <= b.len() && b.subrange(pos, q)
            == encode_outcomes_spec(os),
    decreases n,
{
    if n > 0 {
        lemma_outcomes_bytes(b, pos, (n - 1) as nat);
        if let Ok((os0, p)) = decode_outcomes_spec(b, pos, (n - 1) as nat) {
            lemma_outcome_bytes(b, p);
            if let Ok((o, q)) = decode_outcome_spec(b, p) {
                let os = os0.push(o);
                assert(os.drop_last() =~= os0);
                assert(b.subrange(pos, q) =~= b.subrange(pos, p) + b.subrange(p, q));
            }
        }
    } else {
        assert(b.subrange(pos, pos) =~= Seq::<u8>::empty());
    }
}

proof fn lemma_slots_bytes(b: Seq<u8>, n: nat)
    ensures
        decode_slots_spec(b, 0, n) matches Ok((v, q)) ==> 0 <= q <= b.len() && b.subrange(0, q)
            == encode_slash16_spec(v),
    decreases n,
{
    if n > 0 {
        lemma_slots_bytes(b, (n - 1) as nat);
        if let Ok((v0, p)) = decode_slots_spec(b, 0, (n - 1) as nat) {
            if let Ok((o, q)) = decode_slot_spec(b, p) {
                if b[p] == 1 {
                    lemma_outcomes_bytes(b, p + 1, 256);
                    assert(b.subrange(p, q) =~= seq![1u8] + b.subrange(p + 1, q));
                } else {
                    assert(b.subrange(p, q) =~= seq![0u8]);
                }
                let v = v0.push(o);
                assert(v.drop_last() =~= v0);
                assert(b.subrange(0, q) =~= b.subrange(0, p) + b.subrange(p, q));
            }
        }
    } else {
        assert(b.subrange(0, 0) =~= Seq::<u8>::empty());
    }
}

/// A stream that decodes is exactly the encoding of the /16 it decodes to: the
/// format has one stream per /16.
pub proof fn lemma_decoded_is_encoding(b: Seq<u8>)
    ensures
        decode_slash16_spec(b) matches Ok(v) ==> b == encode_slash16_spec(v),
{
    lemma_slots_bytes(b, 256);
    if let Ok(v) = decode_slash16_spec(b) {
        assert(b.subrange(0, b.len() as int) =~= b);
    }
}

/// Decoding the encoding of a /16 gives the same /16.
pub proof fn lemma_slash16_round_trip(v: Seq<Option<Seq<PingResult>>>)
    requires
        wf16(v),
    ensures
        decode_slash16_spec(encode_slash16_spec(v)) == Ok::<Seq<Option<Seq<PingResult>>>, DecodeError>(v),
{
    lemma_stream_consumed_exactly(v);
}

/// The stream of a /16 result: its 256 records in ascending third-octet order.
pub fn encode_slash16(r: &Slash16Result) -> (out: Vec<u8>)
    ensures
        wf16(r@),
        out@ == encode_slash16_spec(r@),
{
    let mut out: Vec<u8> = Vec::new();
    let mut c: u16 = 0;
    while c < 256
        invariant
            0 <= c <= 256,
            c > 0 ==> wf16(r@),
            c > 0 ==> out@ == encode_slash16_spec(r@.take(c as int)),
            c == 0 ==> out@.len() == 0,
        decreases 256 - c,
    {
        let ghost before = out@;
        let slot = r.slash24(c as u8);
        assert(r@.take(c as int + 1).drop_last() =~= r@.take(c as int));
        assert(r@.take(c as int + 1).last() == r@[c as int]);
        if c == 0 {
            assert(r@.take(0) =~= Seq::<Option<Seq<PingResult>>>::empty());
            assert(before =~= encode_slash16_spec(r@.take(0)));
        }
        match slot {
            None => {
                out.push(0);
                assert(out@ =~= before + encode_slot_spec(r@[c as int]));
            },
            Some(s) => {
                out.push(1);
                let mut d: u16 = 0;
                while d < 256
                    invariant
                        0 <= d <= 256,
                        wf24(s@),
                        out@ == before + seq![1u8] + encode_outcomes_spec(s@.take(d as int)),
                    decreases 256 - d,
                {
                    let ghost mid = out@;
                    let o = s.get(d as u8);
                    o.serialize_into(&mut out);
                    assert(s@.take(d as int + 1).drop_last() =~= s@.take(d as int));
                    assert(s@.take(d as int + 1).last() == o);
                    assert(out@ =~= before + seq![1u8] + encode_outcomes_spec(s@.take(d as int + 1)));
                    d = d + 1;
                }
                assert(s@.take(256) =~= s@);
                assert(out@ =~= before + encode_slot_spec(r@[c as int]));
            },
        }
        assert(encode_slash16_spec(r@.take(c as int + 1)) == encode_slash16_spec(r@.take(c as int))
            + encode_slot_spec(r@[c as int]));
        c = c + 1;
    }
    assert(r@.take(256) =~= r@);
    out
}

fn decode_outcomes(b: &[u8], pos: usize) -> (r: Result<(Vec<PingResult>, usize), DecodeError>)
    requires
        pos <= b@.len(),
    ensures
        match decode_outcomes_spec(b@, pos as int, 256) {
            Ok((os, p)) => r matches Ok((v, q)) && v@ == os && q == p && q <= b@.len(),
            Err(e) => r == Err::<(Vec<PingResult>, usize), DecodeError>(e),
        },
{
    let mut out: Vec<PingResult> = Vec::new();
    let mut p = pos;
    let mut i: u16 = 0;
    while i < 256
        invariant
            0 <= i <= 256,
            p <= b@.len(),
            decode_outcomes_spec(b@, pos as int, i as nat)
                == Ok::<(Seq<PingResult>, int), DecodeError>((out@, p as int)),
        decreases 256 - i,
    {
        let ghost p0 = p as int;
        match PingResult::parse_from_bytes(b, p) {
            Ok((o, q)) => {
                let ghost prev = out@;
                assert(decode_outcome_spec(b@, p0) == Ok::<(PingResult, int), DecodeError>((o, q as int)));
                assert(decode_outcomes_spec(b@, pos as int, i as nat) == Ok::<(Seq<PingResult>, int), DecodeError>((prev, p0)));
                out.push(o);
                p = q;
                assert(decode_outcomes_spec(b@, pos as int, (i + 1) as nat) == Ok::<(Seq<PingResult>, int), DecodeError>(
                    (prev.push(o), q as int)));
            },
            Err(e) => {
                proof {
                    lemma_outcomes_err_stays(b@, pos as int, (i + 1) as nat, 256, e);
                }
                return Err(e);
            },
        }
        i = i + 1;
    }
    Ok((out, p))
}

proof fn lemma_outcomes_err_stays(b: Seq<u8>, pos: int, k: nat, n: nat, e: DecodeError)
    requires
        k <= n,
        decode_outcomes_spec(b, pos, k) == Err::<(Seq<PingResult>, int), DecodeError>(e),
    ensures
        decode_outcomes_spec(b, pos, n) == Err::<(Seq<PingResult>, int), DecodeError>(e),
    decreases n - k,
{
    if k < n {
        lemma_outcomes_err_stays(b, pos, k + 1, n, e);
    }
}

proof fn lemma_slots_err_stays(b: Seq<u8>, pos: int, k: nat, n: nat, e: DecodeError)
    requires
        k <= n,
        decode_slots_spec(b, pos, k) == Err::<(Seq<Option<Seq<PingResult>>>, int), DecodeError>(e),
    ensures
        decode_slots_spec(b, pos, n) == Err::<(Seq<Option<Seq<PingResult>>>, int), DecodeError>(e),
    decreases n - k,
{
    if k < n {
        lemma_slots_err_stays(b, pos, k + 1, n, e);
    }
}

fn decode_slot(b: &[u8], pos: usize) -> (r: Result<(Option<Slash24Result>, usize), DecodeError>)
    requires
        pos <= b@.len(),
    ensures
        match decode_slot_spec(b@, pos as int) {
            Ok((o, p)) => r matches Ok((x, q)) && view24(x) == o && q == p && q <= b@.len(),
            Err(e) => r matches Err(e2) && e2 == e,
        },
{
    if pos >= b.len() {
        return Err(DecodeError::Truncated);
    }
    let tag = b[pos];
    if tag == 0 {
        Ok((None, pos + 1))
    } else if tag == 1 {
        proof {
            lemma_outcomes_len(b@, pos + 1, 256);
        }
        match decode_outcomes(b, pos + 1) {
            Ok((v, q)) => {
                let s = Slash24Result::from_vec(v);
                match s {
                    Some(s) => Ok((Some(s), q)),
                    None => Err(DecodeError::Truncated),
                }
            },
            Err(e) => Err(e),
        }
    } else {
        Err(DecodeError::CorruptSlash24)
    }
}

/// Reading `n` outcomes gives exactly `n` of them when it succeeds.
pub proof fn lemma_outcomes_len(b: Seq<u8>, pos: int, n: nat)
    ensures
        decode_outcomes_spec(b, pos, n) matches Ok((os, _)) ==> os.len() == n,
    decreases n,
{
    if n > 0 {
        lemma_outcomes_len(b, pos, (n - 1) as nat);
    }
}

/// Reads a /16 stream: exactly 256 records and nothing after them.
pub fn decode_slash16(b: &[u8]) -> (r: Result<Slash16Result, DecodeError>)
    ensures
        match decode_slash16_spec(b@) {
            Ok(v) => r matches Ok(x) && x@ == v,
            Err(e) => r matches Err(e2) && e2 == e,
        },
{
    proof {
        lemma_outcomes_len(b@, 0, 256);
    }
    let mut slots: Vec<Option<Slash24Result>> = Vec::new();
    let mut p: usize = 0;
    let mut i: u16 = 0;
    assert(slots@.map_values(|o: Option<Slash24Result>| view24(o)) =~= Seq::<Option<Seq<PingResult>>>::empty());
    while i < 256
        invariant
            0 <= i <= 256,
            slots@.len() == i,
            p <= b@.len(),
            decode_slots_spec(b@, 0, i as nat) == Ok::<(Seq<Option<Seq<PingResult>>>, int), DecodeError>(
                (slots@.map_values(|o: Option<Slash24Result>| view24(o)), p as int),
            ),
        decreases 256 - i,
    {
        match decode_slot(b, p) {
            Ok((o, q)) => {
                let ghost before = slots@;
                slots.push(o);
                assert(slots@.map_values(|o: Option<Slash24Result>| view24(o)) =~= before.map_values(
                    |o: Option<Slash24Result>| view24(o),
                ).push(view24(o)));
                p = q;
                assert(decode_slots_spec(b@, 0, (i + 1) as nat) == Ok::<(Seq<Option<Seq<PingResult>>>, int), DecodeError>(
                    (before.map_values(|o: Option<Slash24Result>| view24(o)).push(view24(o)), q as int)));
            },
            Err(e) => {
                proof {
                    lemma_slots_err_stays(b@, 0, (i + 1) as nat, 256, e);
                }
                return Err(e);
            },
        }
        i = i + 1;
    }
    if p != b.len() {
        return Err(DecodeError::TrailingBytes);
    }
    match Slash16Result::from_vec(slots) {
        Some(x) => Ok(x),
        None => Err(DecodeError::Truncated),
    }
}

} // verus!
