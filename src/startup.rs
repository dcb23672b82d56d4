//! The startup message a database client sends first on a connection:
//! a big-endian length, a protocol version, then NUL-terminated key/value
//! pairs closed by an empty key. It carries no type byte.
use crate::wire::{be4, u32_bytes};
use vstd::prelude::*;
use vstd::utf8::{decode_utf8, encode_scalar, encode_utf8, valid_utf8};

verus! {

/// The text std reads from bytes, each invalid sequence replaced by U+FFFD.
pub uninterp spec fn lossy_text(b: Seq<u8>) -> Seq<char>;

/// Relies on std's `String::from_utf8_lossy`: valid UTF-8 is decoded as it
/// stands, and the result depends on the bytes alone.
#[verifier::external_body]
fn text_of(b: &[u8]) -> (r: String)
    ensures
        r@ == lossy_text(b@),
        valid_utf8(b@) ==> r@ == decode_utf8(b@),
{
    String::from_utf8_lossy(b).into_owned()
}

/// Why a startup message is refused.
#[derive(Clone, Copy, Debug, PartialEq, Eq, Structural)]
pub enum StartupError {
    /// Fewer than the 8 bytes of length and protocol version.
    TooShort,
    /// The length field disagrees with the bytes received.
    LengthMismatch { header: u32, got: usize },
    UnterminatedKey,
    UnterminatedValue,
}

/// Index of the first NUL of `b` in `[i, n)`, or `n` when there is none.
pub open spec fn nul_at(b: Seq<u8>, i: int, n: int) -> int
    decreases n - i,
{
    if i >= n || b[i] == 0 {
        i
    } else {
        nul_at(b, i + 1, n)
    }
}

/// The key/value pairs of `b` from `i` up to `n`, as raw bytes; an empty key ends them.
pub open spec fn params_from(b: Seq<u8>, i: int, n: int) -> Result<Seq<(Seq<u8>, Seq<u8>)>, StartupError>
    decreases n - i,
{
    if i >= n {
        Ok(Seq::empty())
    } else {
        let k = nul_at(b, i, n);
        if k >= n {
            Err(StartupError::UnterminatedKey)
        } else if k == i {
            Ok(Seq::empty())
        } else {
            let e = nul_at(b, k + 1, n);
            if e >= n {
                Err(StartupError::UnterminatedValue)
            } else if e < i {
                // Never taken (`nul_at` does not go back); it keeps the recursion visibly decreasing.
                Ok(Seq::empty())
            } else {
                match params_from(b, e + 1, n) {
                    Ok(rest) => Ok(seq![(b.subrange(i, k), b.subrange(k + 1, e))] + rest),
                    Err(x) => Err(x),
                }
            }
        }
    }
}

/// What a startup message of `n` bytes holds: its protocol version and raw pairs.
pub open spec fn startup_fields(b: Seq<u8>, n: int) -> Result<(u32, Seq<(Seq<u8>, Seq<u8>)>), StartupError> {
    if n < 8 {
        Err(StartupError::TooShort)
    } else if be4(b.subrange(0, 4)) != n {
        Err(StartupError::LengthMismatch { header: be4(b.subrange(0, 4)) as u32, got: n as usize })
    } else {
        match params_from(b, 8, n) {
            Ok(ps) => Ok((be4(b.subrange(4, 8)) as u32, ps)),
            Err(e) => Err(e),
        }
    }
}

/// Raw pairs read as text.
pub open spec fn texts(ps: Seq<(Seq<u8>, Seq<u8>)>) -> Seq<(Seq<char>, Seq<char>)> {
    ps.map_values(|p: (Seq<u8>, Seq<u8>)| (lossy_text(p.0), lossy_text(p.1)))
}

/// Each pair whose raw key or value is valid UTF-8 holds exactly its decoding.
pub open spec fn decodes_valid(ps: Seq<(String, String)>, raw: Seq<(Seq<u8>, Seq<u8>)>) -> bool {
    &&& ps.len() == raw.len()
    &&& forall|i: int|
        0 <= i < raw.len() ==> (valid_utf8(raw[i].0) ==> (#[trigger] ps[i]).0@ == decode_utf8(raw[i].0)) && (
        valid_utf8(raw[i].1) ==> ps[i].1@ == decode_utf8(raw[i].1))
}

/// Pairs of strings as text.
pub open spec fn pairs_view(ps: Seq<(String, String)>) -> Seq<(Seq<char>, Seq<char>)> {
    ps.map_values(|p: (String, String)| (p.0@, p.1@))
}

fn find_nul(buf: &[u8], start: usize, n: usize) -> (r: usize)
    requires
        n <= buf@.len(),
        start <= n,
    ensures
        r == nul_at(buf@, start as int, n as int),
        start <= r <= n,
{
    let mut i = start;
    while i < n && buf[i] != 0
        invariant
            start <= i <= n,
            n <= buf@.len(),
            nul_at(buf@, start as int, n as int) == nul_at(buf@, i as int, n as int),
        decreases n - i,
    {
        i += 1;
    }
    i
}

/// Reads the startup message held in `buf[..n]`: its protocol version and
/// its key/value pairs, in order.
pub fn parse_startup_message(buf: &[u8], n: usize) -> (r: Result<(u32, Vec<(String, String)>), StartupError>)
    requires
        n <= buf@.len(),
    ensures
        match startup_fields(buf@, n as int) {
            Ok((p, ps)) => r is Ok && r->Ok_0.0 == p && pairs_view(r->Ok_0.1@) == texts(ps) && decodes_valid(
                r->Ok_0.1@,
                ps,
            ),
            Err(e) => r == Err::<(u32, Vec<(String, String)>), StartupError>(e),
        },
{
    if n < 8 {
        return Err(StartupError::TooShort);
    }
    let len = (buf[0] as u32) * 16777216 + (buf[1] as u32) * 65536 + (buf[2] as u32) * 256 + (buf[3] as u32);
    assert(len == be4(buf@.subrange(0, 4)));
    if len as usize != n {
        return Err(StartupError::LengthMismatch { header: len, got: n });
    }
    let protocol = (buf[4] as u32) * 16777216 + (buf[5] as u32) * 65536 + (buf[6] as u32) * 256 + (buf[7] as u32);
    assert(protocol == be4(buf@.subrange(4, 8)));
    let mut params: Vec<(String, String)> = Vec::new();
    let ghost mut raw: Seq<(Seq<u8>, Seq<u8>)> = Seq::empty();
    let mut i: usize = 8;
    while i < n
        invariant
            8 <= i <= n,
            n <= buf@.len(),
            be4(buf@.subrange(0, 4)) == n,
            protocol == be4(buf@.subrange(4, 8)),
            pairs_view(params@) == texts(raw),
            decodes_valid(params@, raw),
            params_from(buf@, 8, n as int) == match params_from(buf@, i as int, n as int) {
                Ok(rest) => Ok::<Seq<(Seq<u8>, Seq<u8>)>, StartupError>(raw + rest),
                Err(x) => Err(x),
            },
        decreases n - i,
    {
        let key_start = i;
        let k = find_nul(buf, i, n);
        if k >= n {
            return Err(StartupError::UnterminatedKey);
        }
        if k == key_start {
            assert(params_from(buf@, i as int, n as int) == Ok::<Seq<(Seq<u8>, Seq<u8>)>, StartupError>(Seq::empty()));
            assert(raw + Seq::<(Seq<u8>, Seq<u8>)>::empty() =~= raw);
            return Ok((protocol, params));
        }
        let key = text_of(&buf[key_start..k]);
        let val_start = k + 1;
        let e = find_nul(buf, val_start, n);
        if e >= n {
            return Err(StartupError::UnterminatedValue);
        }
        let val = text_of(&buf[val_start..e]);
        let ghost pair = (buf@.subrange(key_start as int, k as int), buf@.subrange(val_start as int, e as int));
        proof {
            let next = params_from(buf@, e + 1, n as int);
            assert(params_from(buf@, i as int, n as int) == match next {
                Ok(rest) => Ok::<Seq<(Seq<u8>, Seq<u8>)>, StartupError>(seq![pair] + rest),
                Err(x) => Err(x),
            });
            match next {
                Ok(rest) => {
                    assert(raw + (seq![pair] + rest) =~= raw.push(pair) + rest);
                },
                Err(x) => {},
            }
        }
        let ghost prev = params@;
        params.push((key, val));
        proof {
            raw = raw.push(pair);
            assert(pairs_view(params@) =~= texts(raw)) by {
                assert(pairs_view(params@) =~= pairs_view(prev).push((lossy_text(pair.0), lossy_text(pair.1))));
                assert(params@ == prev.push((key, val)));
                assert(texts(raw) =~= texts(raw.drop_last()).push((lossy_text(pair.0), lossy_text(pair.1))));
            }
        }
        i = e + 1;
    }
    if i >= n {
        assert(raw + Seq::<(Seq<u8>, Seq<u8>)>::empty() =~= raw);
    }
    Ok((protocol, params))
}

/// The encoded pairs: each key and value in UTF-8, each followed by a NUL.
pub open spec fn params_bytes(ps: Seq<(Seq<char>, Seq<char>)>) -> Seq<u8>
    decreases ps.len(),
{
    if ps.len() == 0 {
        Seq::empty()
    } else {
        params_bytes(ps.drop_last()) + encode_utf8(ps.last().0) + seq![0u8] + encode_utf8(ps.last().1) + seq![0u8]
    }
}

/// The body of a startup message: version, pairs, and the closing NUL.
pub open spec fn startup_body(protocol_version: u32, ps: Seq<(Seq<char>, Seq<char>)>) -> Seq<u8> {
    u32_bytes(protocol_version) + params_bytes(ps) + seq![0u8]
}

/// A whole startup message: the length (counting itself), then the body.
pub open spec fn startup_bytes(protocol_version: u32, ps: Seq<(Seq<char>, Seq<char>)>) -> Seq<u8> {
    u32_bytes((startup_body(protocol_version, ps).len() + 4) as u32) + startup_body(protocol_version, ps)
}

fn push_all(out: &mut Vec<u8>, b: &[u8])
    ensures
        final(out)@ == old(out)@ + b@,
{
    let mut i: usize = 0;
    while i < b.len()
        invariant
            0 <= i <= b@.len(),
            out@ == old(out)@ + b@.subrange(0, i as int),
        decreases b@.len() - i,
    {
        out.push(b[i]);
        i += 1;
        assert(out@ =~= old(out)@ + b@.subrange(0, i as int));
    }
    assert(b@.subrange(0, b@.len() as int) =~= b@);
}

/// Writes a startup message for `protocol_version` and `params`, ready to send.
pub fn build_startup_message(protocol_version: u32, params: &[(String, String)]) -> (r: Vec<u8>)
    requires
        startup_body(protocol_version, pairs_view(params@)).len() + 4 <= u32::MAX,
    ensures
        r@ == startup_bytes(protocol_version, pairs_view(params@)),
{
    let mut body: Vec<u8> = Vec::new();
    body.push((protocol_version / 16777216) as u8);
    body.push(((protocol_version / 65536) % 256) as u8);
    body.push(((protocol_version / 256) % 256) as u8);
    body.push((protocol_version % 256) as u8);
    assert(body@ =~= u32_bytes(protocol_version));
    let mut i: usize = 0;
    while i < params.len()
        invariant
            0 <= i <= params@.len(),
            body@ == u32_bytes(protocol_version) + params_bytes(pairs_view(params@.subrange(0, i as int))),
        decreases params@.len() - i,
    {
        let (k, v) = &params[i];
        let ghost before = body@;
        push_all(&mut body, k.as_str().as_bytes());
        body.push(0);
        push_all(&mut body, v.as_str().as_bytes());
        body.push(0);
        proof {
            let ps = pairs_view(params@.subrange(0, i + 1));
            assert(ps.drop_last() =~= pairs_view(params@.subrange(0, i as int)));
            assert(ps.last() == (k@, v@));
            assert(body@ =~= u32_bytes(protocol_version) + params_bytes(ps));
        }
        i += 1;
    }
    assert(params@.subrange(0, i as int) =~= params@);
    body.push(0);
    assert(body@ =~= startup_body(protocol_version, pairs_view(params@)));
    let total_len = (body.len() + 4) as u32;
    let mut msg: Vec<u8> = Vec::new();
    msg.push((total_len / 16777216) as u8);
    msg.push(((total_len / 65536) % 256) as u8);
    msg.push(((total_len / 256) % 256) as u8);
    msg.push((total_len % 256) as u8);
    push_all(&mut msg, body.as_slice());
    assert(msg@ =~= startup_bytes(protocol_version, pairs_view(params@)));
    msg
}

/// No character of `cs` is NUL.
pub open spec fn nul_free(cs: Seq<char>) -> bool {
    forall|i: int| 0 <= i < cs.len() ==> (#[trigger] cs[i]) as u32 != 0
}

/// The raw bytes that a parse of the built pairs gives back.
pub open spec fn encoded_pairs(ps: Seq<(Seq<char>, Seq<char>)>) -> Seq<(Seq<u8>, Seq<u8>)> {
    ps.map_values(|p: (Seq<char>, Seq<char>)| (encode_utf8(p.0), encode_utf8(p.1)))
}

proof fn lemma_scalar_nonzero(c: char)
    requires
        c as u32 != 0,
    ensures
        forall|i: int| 0 <= i < encode_scalar(c as u32).len() ==> #[trigger] encode_scalar(c as u32)[i] != 0,
        encode_scalar(c as u32).len() >= 1,
{
    let s = c as u32;
    assert(s > 0u32 && s <= 0x7Fu32 ==> (s & 0x7Fu32) as u8 != 0u8) by (bit_vector);
    assert(0xC0u8 | ((s >> 6u32) & 0x1Fu32) as u8 != 0u8) by (bit_vector);
    assert(0xE0u8 | ((s >> 12u32) & 0x0Fu32) as u8 != 0u8) by (bit_vector);
    assert(0xF0u8 | ((s >> 18u32) & 0x7u32) as u8 != 0u8) by (bit_vector);
    assert(0x80u8 | (s & 0x3Fu32) as u8 != 0u8) by (bit_vector);
    assert(0x80u8 | ((s >> 6u32) & 0x3Fu32) as u8 != 0u8) by (bit_vector);
    assert(0x80u8 | ((s >> 12u32) & 0x3Fu32) as u8 != 0u8) by (bit_vector);
}

proof fn lemma_encode_nonzero(cs: Seq<char>)
    requires
        nul_free(cs),
    ensures
        forall|j: int| 0 <= j < encode_utf8(cs).len() ==> #[trigger] encode_utf8(cs)[j] != 0,
        cs.len() > 0 ==> encode_utf8(cs).len() > 0,
    decreases cs.len(),
{
    if cs.len() > 0 {
        assert(cs[0] as u32 != 0);
        lemma_scalar_nonzero(cs[0]);
        let rest = cs.drop_first();
        assert forall|i: int| 0 <= i < rest.len() implies (#[trigger] rest[i]) as u32 != 0 by {
            assert(rest[i] == cs[i + 1]);
        }
        lemma_encode_nonzero(rest);
        let e = encode_utf8(cs);
        let h = encode_scalar(cs[0] as u32);
        assert forall|j: int| 0 <= j < e.len() implies #[trigger] e[j] != 0 by {
            if j < h.len() {
                assert(e[j] == h[j]);
            } else {
                assert(e[j] == encode_utf8(rest)[j - h.len()]);
            }
        }
    }
}

proof fn lemma_nul_skip(b: Seq<u8>, i: int, n: int, len: int)
    requires
        0 <= len,
        0 <= i,
        i + len <= n <= b.len(),
        forall|j: int| i <= j < i + len ==> b[j] != 0,
    ensures
        nul_at(b, i, n) == nul_at(b, i + len, n),
    decreases len,
{
    if len > 0 {
        lemma_nul_skip(b, i + 1, n, len - 1);
    }
}

/// The bytes of one pair.
pub open spec fn pair_bytes(p: (Seq<char>, Seq<char>)) -> Seq<u8> {
    encode_utf8(p.0) + seq![0u8] + encode_utf8(p.1) + seq![0u8]
}

proof fn lemma_params_bytes_front(ps: Seq<(Seq<char>, Seq<char>)>)
    requires
        ps.len() > 0,
    ensures
        params_bytes(ps) == pair_bytes(ps[0]) + params_bytes(ps.drop_first()),
    decreases ps.len(),
{
    if ps.len() == 1 {
        assert(ps.drop_last() =~= Seq::<(Seq<char>, Seq<char>)>::empty());
        assert(ps.drop_first() =~= Seq::<(Seq<char>, Seq<char>)>::empty());
        assert(params_bytes(ps) =~= pair_bytes(ps[0]) + params_bytes(ps.drop_first()));
    } else {
        lemma_params_bytes_front(ps.drop_last());
        assert(ps.drop_last().drop_first() =~= ps.drop_first().drop_last());
        assert(ps.drop_first().last() == ps.last());
        assert(ps.drop_last()[0] == ps[0]);
        assert(params_bytes(ps) =~= pair_bytes(ps[0]) + params_bytes(ps.drop_first()));
    }
}

/// Every key is non-empty and no key or value holds a NUL.
pub open spec fn well_formed_pairs(ps: Seq<(Seq<char>, Seq<char>)>) -> bool {
    forall|i: int| 0 <= i < ps.len() ==> (#[trigger] ps[i]).0.len() > 0 && nul_free(ps[i].0) && nul_free(ps[i].1)
}

proof fn lemma_params_parse(b: Seq<u8>, i: int, ps: Seq<(Seq<char>, Seq<char>)>)
    requires
        0 <= i <= b.len(),
        b.subrange(i, b.len() as int) == params_bytes(ps) + seq![0u8],
        well_formed_pairs(ps),
    ensures
        params_from(b, i, b.len() as int) == Ok::<Seq<(Seq<u8>, Seq<u8>)>, StartupError>(encoded_pairs(ps)),
    decreases ps.len(),
{
    let n = b.len() as int;
    if ps.len() == 0 {
        assert(b[i] == b.subrange(i, n)[0]);
        assert(encoded_pairs(ps) =~= Seq::empty());
    } else {
        lemma_params_bytes_front(ps);
        let p0 = ps[0];
        let rest = ps.drop_first();
        let ek = encode_utf8(p0.0);
        let ev = encode_utf8(p0.1);
        lemma_encode_nonzero(p0.0);
        lemma_encode_nonzero(p0.1);
        let tail = b.subrange(i, n);
        let after = params_bytes(rest) + seq![0u8];
        assert(tail =~= ek + seq![0u8] + ev + seq![0u8] + after);
        let el = ek.len() as int;
        let vl = ev.len() as int;
        assert(tail.len() == el + 1 + vl + 1 + after.len());
        assert(tail.subrange(0, el) =~= ek);
        assert(tail[el] == 0);
        assert(tail.subrange(el + 1, el + 1 + vl) =~= ev);
        assert(tail[el + 1 + vl] == 0);
        assert(tail.subrange(el + 2 + vl, tail.len() as int) =~= after);
        assert forall|j: int| i <= j < i + ek.len() implies b[j] != 0 by {
            assert(b[j] == tail[j - i]);
            assert(tail.subrange(0, el)[j - i] == ek[j - i]);
        }
        lemma_nul_skip(b, i, n, ek.len() as int);
        let k = i + ek.len();
        assert(b[k] == tail[ek.len() as int]);
        assert(nul_at(b, k, n) == k);
        assert forall|j: int| k + 1 <= j < k + 1 + ev.len() implies b[j] != 0 by {
            assert(b[j] == tail[j - i]);
            assert(tail.subrange(el + 1, el + 1 + vl)[j - k - 1] == ev[j - k - 1]);
        }
        lemma_nul_skip(b, k + 1, n, ev.len() as int);
        let e = k + 1 + ev.len();
        assert(b[e] == tail[e - i]);
        assert(nul_at(b, k + 1, n) == e);
        assert(b.subrange(i, k) =~= tail.subrange(0, el));
        assert(b.subrange(k + 1, e) =~= tail.subrange(el + 1, el + 1 + vl));
        assert(b.subrange(e + 1, n) =~= tail.subrange(el + 2 + vl, tail.len() as int));
        assert forall|t: int| 0 <= t < rest.len() implies (#[trigger] rest[t]).0.len() > 0 && nul_free(rest[t].0) && nul_free(rest[t].1) by {
            assert(rest[t] == ps[t + 1]);
        }
        lemma_params_parse(b, e + 1, rest);
        assert(encoded_pairs(ps) =~= seq![(ek, ev)] + encoded_pairs(rest));
    }
}

/// A built startup message parses back to its version and pairs: every key
/// must be non-empty and no key or value may hold a NUL. Each raw pair is the
/// UTF-8 of the original text, which decodes back to it, so the parsed
/// strings are the ones given.
pub proof fn lemma_startup_round_trip(p: u32, ps: Seq<(Seq<char>, Seq<char>)>)
    requires
        well_formed_pairs(ps),
        startup_body(p, ps).len() + 4 <= u32::MAX,
    ensures
        startup_fields(startup_bytes(p, ps), startup_bytes(p, ps).len() as int) == Ok::<
            (u32, Seq<(Seq<u8>, Seq<u8>)>),
            StartupError,
        >((p, encoded_pairs(ps))),
        forall|i: int|
            0 <= i < ps.len() ==> valid_utf8(#[trigger] encoded_pairs(ps)[i].0) && decode_utf8(
                encoded_pairs(ps)[i].0,
            ) == ps[i].0 && valid_utf8(encoded_pairs(ps)[i].1) && decode_utf8(encoded_pairs(ps)[i].1)
                == ps[i].1,
{
    let body = startup_body(p, ps);
    let len = (body.len() + 4) as u32;
    let b = startup_bytes(p, ps);
    crate::wire::lemma_u32_round_trip(len);
    crate::wire::lemma_u32_round_trip(p);
    assert(b.len() == body.len() + 4);
    assert(b.subrange(0, 4) =~= u32_bytes(len));
    assert(b.subrange(4, 8) =~= u32_bytes(p));
    assert(b.subrange(8, b.len() as int) =~= params_bytes(ps) + seq![0u8]);
    lemma_params_parse(b, 8, ps);
    assert forall|i: int| 0 <= i < ps.len() implies valid_utf8(#[trigger] encoded_pairs(ps)[i].0) && decode_utf8(
        encoded_pairs(ps)[i].0,
    ) == ps[i].0 && valid_utf8(encoded_pairs(ps)[i].1) && decode_utf8(encoded_pairs(ps)[i].1) == ps[i].1 by {
        vstd::utf8::encode_utf8_valid_utf8(ps[i].0);
        vstd::utf8::encode_utf8_valid_utf8(ps[i].1);
        vstd::utf8::encode_utf8_decode_utf8(ps[i].0);
        vstd::utf8::encode_utf8_decode_utf8(ps[i].1);
    }
}

} // verus!
