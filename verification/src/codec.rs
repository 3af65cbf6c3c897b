//! The bus framing for structured values: length-prefixed binary encoding
//! of strings, byte blocks and header lists, with a verified decoder that
//! inverts the encoder exactly.

use vstd::prelude::*;

verus! {

use vstd::string::{StrSliceExecFns, StringSliceAdditionalSpecFns};
use vstd::utf8::{decode_utf8, encode_utf8, valid_utf8};
use crate::messages::{InputMessage, InputMessageView, OutputMessage, OutputMessageView};

/// A 32-bit length in four little-endian bytes.
pub open spec fn spec_le32(n: nat) -> Seq<u8> {
    seq![
        (n % 256) as u8,
        ((n / 256) % 256) as u8,
        ((n / 65536) % 256) as u8,
        ((n / 16777216) % 256) as u8,
    ]
}

/// The number the four bytes at `p` spell.
pub open spec fn spec_read_le32(b: Seq<u8>, p: int) -> nat {
    (b[p] + 256 * b[p + 1] + 65536 * b[p + 2] + 16777216 * b[p + 3]) as nat
}

proof fn lemma_le32_roundtrip(n: nat, b: Seq<u8>, p: int)
    requires
        n < 4294967296,
        0 <= p,
        p + 4 <= b.len(),
        b.subrange(p, p + 4) == spec_le32(n),
    ensures
        spec_read_le32(b, p) == n,
{
    assert(b[p] == spec_le32(n)[0]);
    assert(b[p + 1] == spec_le32(n)[1]);
    assert(b[p + 2] == spec_le32(n)[2]);
    assert(b[p + 3] == spec_le32(n)[3]);
    let ni = n as int;
    assert(ni % 256 + 256 * ((ni / 256) % 256) + 65536 * ((ni / 65536) % 256) + 16777216 * ((ni
        / 16777216) % 256) == ni) by (nonlinear_arith)
        requires
            0 <= ni < 4294967296,
    ;
}

pub(crate) fn push_le32(out: &mut Vec<u8>, n: u32)
    ensures
        final(out)@ == old(out)@ + spec_le32(n as nat),
{
    let ghost pre = out@;
    out.push((n % 256) as u8);
    out.push(((n / 256) % 256) as u8);
    out.push(((n / 65536) % 256) as u8);
    out.push(((n / 16777216) % 256) as u8);
    proof {
        assert(out@ =~= pre + spec_le32(n as nat));
    }
}

pub(crate) fn push_bytes(out: &mut Vec<u8>, b: &Vec<u8>)
    ensures
        final(out)@ == old(out)@ + b@,
{
    let ghost pre = out@;
    let mut i: usize = 0;
    while i < b.len()
        invariant
            i <= b.len(),
            out@ == pre + b@.subrange(0, i as int),
        decreases b.len() - i,
    {
        out.push(b[i]);
        proof {
            assert(pre + b@.subrange(0, i as int) + seq![b@[i as int]] =~= pre + b@.subrange(
                0,
                i + 1 as int,
            ));
        }
        i += 1;
    }
    proof {
        assert(b@.subrange(0, b@.len() as int) =~= b@);
    }
}

pub(crate) fn read_le32(b: &Vec<u8>, p: usize) -> (n: u32)
    requires
        p + 4 <= b@.len(),
    ensures
        n as nat == spec_read_le32(b@, p as int),
{
    let len = b.len();
    let b0 = b[p] as u32;
    let b1 = b[p + 1] as u32;
    let b2 = b[p + 2] as u32;
    let b3 = b[p + 3] as u32;
    b0 + 256 * b1 + 65536 * b2 + 16777216 * b3
}

/// A byte block on the wire: its length, then its bytes.
pub open spec fn spec_enc_bytes(x: Seq<u8>) -> Seq<u8> {
    spec_le32(x.len()) + x
}

/// Reading a byte block at `p`: the block and the position after it, or
/// nothing when the buffer is too short.
pub open spec fn spec_dec_bytes(b: Seq<u8>, p: int) -> Option<(Seq<u8>, int)> {
    if 0 <= p && p + 4 <= b.len() {
        let n = spec_read_le32(b, p) as int;
        if p + 4 + n <= b.len() {
            Option::Some((b.subrange(p + 4, p + 4 + n), p + 4 + n))
        } else {
            Option::None
        }
    } else {
        Option::None
    }
}

pub(crate) proof fn lemma_dec_bytes_enc(x: Seq<u8>, b: Seq<u8>, p: int)
    requires
        x.len() < 4294967296,
        0 <= p,
        p + spec_enc_bytes(x).len() <= b.len(),
        b.subrange(p, p + spec_enc_bytes(x).len()) == spec_enc_bytes(x),
    ensures
        spec_dec_bytes(b, p) == Option::Some((x, p + spec_enc_bytes(x).len())),
{
    let l = x.len() as int;
    assert(spec_enc_bytes(x).len() == 4 + l);
    assert forall|i: int| 0 <= i < 4 implies b[p + i] == spec_le32(x.len())[i] by {
        assert(b.subrange(p, p + 4 + l)[i] == spec_enc_bytes(x)[i]);
    }
    assert(b.subrange(p, p + 4) =~= spec_le32(x.len()));
    lemma_le32_roundtrip(x.len(), b, p);
    assert forall|i: int| 0 <= i < l implies b[p + 4 + i] == x[i] by {
        assert(b.subrange(p, p + 4 + l)[4 + i] == spec_enc_bytes(x)[4 + i]);
    }
    assert(b.subrange(p + 4, p + 4 + l) =~= x);
}

pub(crate) fn dec_bytes(b: &Vec<u8>, p: usize) -> (r: Option<(Vec<u8>, usize)>)
    ensures
        match r {
            Option::Some((x, q)) => spec_dec_bytes(b@, p as int) == Option::Some(
                (x@, q as int),
            ),
            Option::None => spec_dec_bytes(b@, p as int) is None,
        },
{
    let len = b.len();
    if len < 4 || p > len - 4 {
        return Option::None;
    }
    let n = read_le32(b, p);
    let n = n as usize;
    if n > len - (p + 4) {
        return Option::None;
    }
    let start = p + 4;
    let mut x: Vec<u8> = Vec::new();
    let mut i: usize = 0;
    while i < n
        invariant
            len == b@.len(),
            start + n <= len,
            i <= n,
            x@ == b@.subrange(start as int, start + i as int),
        decreases n - i,
    {
        x.push(b[start + i]);
        proof {
            assert(x@ =~= b@.subrange(start as int, start + (i + 1) as int));
        }
        i += 1;
    }
    Option::Some((x, start + n))
}

/// Relies on `String::from_utf8`: it succeeds exactly on valid UTF-8 input
/// and returns the string those bytes spell.
#[verifier::external_body]
pub(crate) fn string_from_utf8(bytes: Vec<u8>) -> (r: Option<String>)
    ensures
        match r {
            Option::Some(s) => valid_utf8(bytes@) && s@ == decode_utf8(bytes@),
            Option::None => !valid_utf8(bytes@),
        },
{
    String::from_utf8(bytes).ok()
}

/// A string on the wire: its UTF-8 bytes as a byte block.
pub open spec fn spec_enc_string(s: Seq<char>) -> Seq<u8> {
    spec_enc_bytes(encode_utf8(s))
}

/// Reading a string at `p`: a byte block that must hold valid UTF-8.
pub open spec fn spec_dec_string(b: Seq<u8>, p: int) -> Option<(Seq<char>, int)> {
    match spec_dec_bytes(b, p) {
        Option::Some((bs, q)) => if valid_utf8(bs) {
            Option::Some((decode_utf8(bs), q))
        } else {
            Option::None
        },
        Option::None => Option::None,
    }
}

pub(crate) proof fn lemma_dec_string_enc(s: Seq<char>, b: Seq<u8>, p: int)
    requires
        encode_utf8(s).len() < 4294967296,
        0 <= p,
        p + spec_enc_string(s).len() <= b.len(),
        b.subrange(p, p + spec_enc_string(s).len()) == spec_enc_string(s),
    ensures
        spec_dec_string(b, p) == Option::Some((s, p + spec_enc_string(s).len())),
{
    lemma_dec_bytes_enc(encode_utf8(s), b, p);
    vstd::utf8::encode_utf8_valid_utf8(s);
    vstd::utf8::encode_utf8_decode_utf8(s);
}

pub(crate) fn enc_string(out: &mut Vec<u8>, s: &str)
    requires
        s.spec_bytes().len() < 4294967296,
    ensures
        final(out)@ == old(out)@ + spec_enc_string(s@),
{
    let ghost pre = out@;
    let bytes = s.as_bytes_vec();
    push_le32(out, bytes.len() as u32);
    push_bytes(out, &bytes);
    proof {
        assert(out@ =~= pre + spec_enc_string(s@));
    }
}

pub(crate) fn dec_string(b: &Vec<u8>, p: usize) -> (r: Option<(String, usize)>)
    ensures
        match r {
            Option::Some((s, q)) => spec_dec_string(b@, p as int) == Option::Some(
                (s@, q as int),
            ),
            Option::None => spec_dec_string(b@, p as int) is None,
        },
{
    match dec_bytes(b, p) {
        Option::None => Option::None,
        Option::Some((bs, q)) => {
            match string_from_utf8(bs) {
                Option::None => Option::None,
                Option::Some(s) => Option::Some((s, q)),
            }
        },
    }
}

/// A piece of an encoding placed inside a larger buffer sits at its offset.
pub(crate) proof fn lemma_buffer_piece(b: Seq<u8>, p: int, whole: Seq<u8>, off: int, piece: Seq<u8>)
    requires
        0 <= p,
        p + whole.len() <= b.len(),
        b.subrange(p, p + whole.len()) == whole,
        0 <= off,
        off + piece.len() <= whole.len(),
        whole.subrange(off, off + piece.len()) == piece,
    ensures
        b.subrange(p + off, p + off + piece.len()) == piece,
{
    assert forall|i: int| 0 <= i < piece.len() implies b[p + off + i] == piece[i] by {
        assert(b.subrange(p, p + whole.len())[off + i] == whole[off + i]);
        assert(whole.subrange(off, off + piece.len())[i] == piece[i]);
    }
    assert(b.subrange(p + off, p + off + piece.len()) =~= piece);
}

/// The models of a header list, in order.
pub open spec fn spec_headers_view(v: Seq<(String, String)>) -> Seq<(Seq<char>, Seq<char>)> {
    Seq::new(v.len(), |i: int| (v[i].0@, v[i].1@))
}

/// A header list is encodable when its count and every name and value fit
/// the length prefixes.
pub open spec fn spec_headers_wf(hs: Seq<(Seq<char>, Seq<char>)>) -> bool {
    &&& hs.len() < 4294967296
    &&& forall|i: int|
        0 <= i < hs.len() ==> encode_utf8((#[trigger] hs[i]).0).len() < 4294967296 && encode_utf8(
            hs[i].1,
        ).len() < 4294967296
}

/// The header pairs on the wire, name then value, in order.
pub open spec fn spec_enc_header_list(hs: Seq<(Seq<char>, Seq<char>)>) -> Seq<u8>
    decreases hs.len(),
{
    if hs.len() == 0 {
        Seq::empty()
    } else {
        spec_enc_string(hs[0].0) + spec_enc_string(hs[0].1) + spec_enc_header_list(
            hs.drop_first(),
        )
    }
}

/// A header list on the wire: its count, then the pairs.
pub open spec fn spec_enc_headers(hs: Seq<(Seq<char>, Seq<char>)>) -> Seq<u8> {
    spec_le32(hs.len()) + spec_enc_header_list(hs)
}

/// Reading `n` header pairs from `p`.
pub open spec fn spec_dec_header_list(b: Seq<u8>, p: int, n: nat) -> Option<
    (Seq<(Seq<char>, Seq<char>)>, int),
>
    decreases n,
{
    if n == 0 {
        Option::Some((Seq::empty(), p))
    } else {
        match spec_dec_string(b, p) {
            Option::Some((k, q1)) => match spec_dec_string(b, q1) {
                Option::Some((v, q2)) => match spec_dec_header_list(b, q2, (n - 1) as nat) {
                    Option::Some((rest, q3)) => Option::Some((seq![(k, v)] + rest, q3)),
                    Option::None => Option::None,
                },
                Option::None => Option::None,
            },
            Option::None => Option::None,
        }
    }
}

/// Reading a header list at `p`: the count, then that many pairs.
pub open spec fn spec_dec_headers(b: Seq<u8>, p: int) -> Option<
    (Seq<(Seq<char>, Seq<char>)>, int),
> {
    if 0 <= p && p + 4 <= b.len() {
        spec_dec_header_list(b, p + 4, spec_read_le32(b, p))
    } else {
        Option::None
    }
}

proof fn lemma_enc_header_list_push(hs: Seq<(Seq<char>, Seq<char>)>, h: (Seq<char>, Seq<char>))
    ensures
        spec_enc_header_list(hs.push(h)) == spec_enc_header_list(hs) + spec_enc_string(h.0)
            + spec_enc_string(h.1),
    decreases hs.len(),
{
    reveal_with_fuel(spec_enc_header_list, 3);
    if hs.len() == 0 {
        assert(hs.push(h).drop_first() =~= Seq::<(Seq<char>, Seq<char>)>::empty());
        assert(spec_enc_header_list(hs.push(h)) =~= spec_enc_header_list(hs) + spec_enc_string(
            h.0,
        ) + spec_enc_string(h.1));
    } else {
        assert(hs.push(h).drop_first() =~= hs.drop_first().push(h));
        lemma_enc_header_list_push(hs.drop_first(), h);
        assert(spec_enc_header_list(hs.push(h)) =~= spec_enc_header_list(hs) + spec_enc_string(
            h.0,
        ) + spec_enc_string(h.1));
    }
}

pub(crate) proof fn lemma_dec_header_list_enc(hs: Seq<(Seq<char>, Seq<char>)>, b: Seq<u8>, p: int)
    requires
        spec_headers_wf(hs),
        0 <= p,
        p + spec_enc_header_list(hs).len() <= b.len(),
        b.subrange(p, p + spec_enc_header_list(hs).len()) == spec_enc_header_list(hs),
    ensures
        spec_dec_header_list(b, p, hs.len()) == Option::Some(
            (hs, p + spec_enc_header_list(hs).len()),
        ),
    decreases hs.len(),
{
    if hs.len() == 0 {
        assert(spec_dec_header_list(b, p, 0) == Option::Some(
            (Seq::<(Seq<char>, Seq<char>)>::empty(), p),
        ));
        assert(hs =~= Seq::<(Seq<char>, Seq<char>)>::empty());
    } else {
        let whole = spec_enc_header_list(hs);
        let a = spec_enc_string(hs[0].0);
        let c = spec_enc_string(hs[0].1);
        let rest = spec_enc_header_list(hs.drop_first());
        assert(whole == a + c + rest);
        assert(whole.subrange(0, a.len() as int) =~= a);
        lemma_buffer_piece(b, p, whole, 0, a);
        lemma_dec_string_enc(hs[0].0, b, p);
        assert(whole.subrange(a.len() as int, (a.len() + c.len()) as int) =~= c);
        lemma_buffer_piece(b, p, whole, a.len() as int, c);
        lemma_dec_string_enc(hs[0].1, b, p + a.len() as int);
        assert(whole.subrange((a.len() + c.len()) as int, whole.len() as int) =~= rest);
        lemma_buffer_piece(b, p, whole, (a.len() + c.len()) as int, rest);
        assert(spec_headers_wf(hs.drop_first())) by {
            assert(forall|i: int|
                0 <= i < hs.drop_first().len() ==> #[trigger] hs.drop_first()[i] == hs[i + 1]);
        }
        lemma_dec_header_list_enc(hs.drop_first(), b, p + (a.len() + c.len()) as int);
        assert(seq![(hs[0].0, hs[0].1)] + hs.drop_first() =~= hs);
    }
}

pub(crate) proof fn lemma_dec_headers_enc(hs: Seq<(Seq<char>, Seq<char>)>, b: Seq<u8>, p: int)
    requires
        spec_headers_wf(hs),
        0 <= p,
        p + spec_enc_headers(hs).len() <= b.len(),
        b.subrange(p, p + spec_enc_headers(hs).len()) == spec_enc_headers(hs),
    ensures
        spec_dec_headers(b, p) == Option::Some((hs, p + spec_enc_headers(hs).len())),
{
    let whole = spec_enc_headers(hs);
    let pre = spec_le32(hs.len());
    let rest = spec_enc_header_list(hs);
    assert(whole.subrange(0, 4) =~= pre);
    lemma_buffer_piece(b, p, whole, 0, pre);
    assert(b.subrange(p, p + 4) =~= spec_le32(hs.len()));
    lemma_le32_roundtrip(hs.len(), b, p);
    assert(whole.subrange(4, whole.len() as int) =~= rest);
    lemma_buffer_piece(b, p, whole, 4, rest);
    lemma_dec_header_list_enc(hs, b, p + 4);
}

pub(crate) fn enc_headers(out: &mut Vec<u8>, hs: &Vec<(String, String)>)
    requires
        spec_headers_wf(spec_headers_view(hs@)),
    ensures
        final(out)@ == old(out)@ + spec_enc_headers(spec_headers_view(hs@)),
{
    let ghost pre = out@;
    let ghost hv = spec_headers_view(hs@);
    push_le32(out, hs.len() as u32);
    let n = hs.len();
    let mut i: usize = 0;
    while i < n
        invariant
            n == hs.len(),
            i <= n,
            hv == spec_headers_view(hs@),
            spec_headers_wf(hv),
            out@ == pre + spec_le32(hv.len()) + spec_enc_header_list(hv.subrange(0, i as int)),
        decreases n - i,
    {
        proof {
            assert(hv[i as int] == (hs@[i as int].0@, hs@[i as int].1@));
        }
        enc_string(out, hs[i].0.as_str());
        enc_string(out, hs[i].1.as_str());
        proof {
            lemma_enc_header_list_push(hv.subrange(0, i as int), hv[i as int]);
            assert(hv.subrange(0, i as int).push(hv[i as int]) =~= hv.subrange(0, i + 1 as int));
            assert(out@ =~= pre + spec_le32(hv.len()) + spec_enc_header_list(
                hv.subrange(0, i + 1 as int),
            ));
        }
        i += 1;
    }
    proof {
        assert(hv.subrange(0, n as int) =~= hv);
        assert(out@ =~= pre + spec_enc_headers(hv));
    }
}

pub(crate) fn dec_headers(b: &Vec<u8>, p: usize) -> (r: Option<(Vec<(String, String)>, usize)>)
    ensures
        match r {
            Option::Some((hs, q)) => spec_dec_headers(b@, p as int) == Option::Some(
                (spec_headers_view(hs@), q as int),
            ),
            Option::None => spec_dec_headers(b@, p as int) is None,
        },
{
    let len = b.len();
    if len < 4 || p > len - 4 {
        return Option::None;
    }
    let n = read_le32(b, p);
    let ghost total = n as nat;
    let mut acc: Vec<(String, String)> = Vec::new();
    let mut pos: usize = p + 4;
    let mut t: u32 = 0;
    while t < n
        invariant
            t <= n,
            total == n as nat,
            acc@.len() == t as nat,
            spec_dec_headers(b@, p as int) == (match spec_dec_header_list(
                b@,
                pos as int,
                (n - t) as nat,
            ) {
                Option::Some((rest, q)) => Option::Some((spec_headers_view(acc@) + rest, q)),
                Option::None => Option::<(Seq<(Seq<char>, Seq<char>)>, int)>::None,
            }),
        decreases n - t,
    {
        let ghost pre_acc = spec_headers_view(acc@);
        let k = match dec_string(b, pos) {
            Option::None => {
                return Option::None;
            },
            Option::Some(x) => x,
        };
        let v = match dec_string(b, k.1) {
            Option::None => {
                return Option::None;
            },
            Option::Some(x) => x,
        };
        pos = v.1;
        acc.push((k.0, v.0));
        proof {
            assert(spec_headers_view(acc@) =~= pre_acc + seq![(acc@.last().0@, acc@.last().1@)]);
            assert forall|rest2: Seq<(Seq<char>, Seq<char>)>|
                pre_acc + (seq![(acc@.last().0@, acc@.last().1@)] + rest2) == spec_headers_view(
                    acc@,
                ) + rest2 by {
                assert(pre_acc + (seq![(acc@.last().0@, acc@.last().1@)] + rest2)
                    =~= spec_headers_view(acc@) + rest2);
            }
        }
        t += 1;
    }
    proof {
        assert(spec_headers_view(acc@) + Seq::<(Seq<char>, Seq<char>)>::empty()
            =~= spec_headers_view(acc@));
    }
    Option::Some((acc, pos))
}

/// An optional string on the wire: a presence byte, then the string.
pub open spec fn spec_enc_opt_string(o: Option<Seq<char>>) -> Seq<u8> {
    match o {
        Option::None => seq![0u8],
        Option::Some(s) => seq![1u8] + spec_enc_string(s),
    }
}

/// Reading an optional string at `p`.
pub open spec fn spec_dec_opt_string(b: Seq<u8>, p: int) -> Option<(Option<Seq<char>>, int)> {
    if 0 <= p < b.len() {
        if b[p] == 0 {
            Option::Some((Option::None, p + 1))
        } else if b[p] == 1 {
            match spec_dec_string(b, p + 1) {
                Option::Some((s, q)) => Option::Some((Option::Some(s), q)),
                Option::None => Option::None,
            }
        } else {
            Option::None
        }
    } else {
        Option::None
    }
}

pub(crate) proof fn lemma_dec_opt_string_enc(o: Option<Seq<char>>, b: Seq<u8>, p: int)
    requires
        o matches Option::Some(s) ==> encode_utf8(s).len() < 4294967296,
        0 <= p,
        p + spec_enc_opt_string(o).len() <= b.len(),
        b.subrange(p, p + spec_enc_opt_string(o).len()) == spec_enc_opt_string(o),
    ensures
        spec_dec_opt_string(b, p) == Option::Some((o, p + spec_enc_opt_string(o).len())),
{
    let whole = spec_enc_opt_string(o);
    assert(b[p] == whole[0]) by {
        assert(b.subrange(p, p + whole.len() as int)[0] == whole[0]);
    }
    match o {
        Option::None => {
        },
        Option::Some(s) => {
            let a = spec_enc_string(s);
            assert(whole.subrange(1, 1 + a.len() as int) =~= a);
            lemma_buffer_piece(b, p, whole, 1, a);
            lemma_dec_string_enc(s, b, p + 1);
        },
    }
}

pub(crate) fn enc_opt_string(out: &mut Vec<u8>, o: &Option<String>)
    requires
        o matches Option::Some(s) ==> encode_utf8(s@).len() < 4294967296,
    ensures
        final(out)@ == old(out)@ + spec_enc_opt_string(crate::messages::opt_str_view(*o)),
{
    let ghost pre = out@;
    match o {
        Option::None => {
            out.push(0u8);
            proof {
                assert(out@ =~= pre + spec_enc_opt_string(crate::messages::opt_str_view(
                    Option::None,
                )));
            }
        },
        Option::Some(s) => {
            out.push(1u8);
            enc_string(out, s.as_str());
            proof {
                assert(out@ =~= pre + spec_enc_opt_string(crate::messages::opt_str_view(
                    Option::Some(*s),
                )));
            }
        },
    }
}

pub(crate) fn dec_opt_string(b: &Vec<u8>, p: usize) -> (r: Option<(Option<String>, usize)>)
    ensures
        match r {
            Option::Some((o, q)) => spec_dec_opt_string(b@, p as int) == Option::Some(
                (crate::messages::opt_str_view(o), q as int),
            ),
            Option::None => spec_dec_opt_string(b@, p as int) is None,
        },
{
    if p >= b.len() {
        return Option::None;
    }
    let tag = b[p];
    if tag == 0 {
        Option::Some((Option::None, p + 1))
    } else if tag == 1 {
        match dec_string(b, p + 1) {
            Option::None => Option::None,
            Option::Some((s, q)) => Option::Some((Option::Some(s), q)),
        }
    } else {
        Option::None
    }
}

/// An inbound message is encodable when its parts fit their length
/// prefixes.
pub open spec fn spec_input_wf(m: InputMessageView) -> bool {
    &&& m.message.len() < 4294967296
    &&& encode_utf8(m.subject).len() < 4294967296
    &&& encode_utf8(m.broker).len() < 4294967296
    &&& (m.response_subject matches Option::Some(s) ==> encode_utf8(s).len() < 4294967296)
}

/// A whole inbound message on the wire: body, subject, broker, reply
/// subject.
pub open spec fn spec_enc_input(m: InputMessageView) -> Seq<u8> {
    spec_enc_bytes(m.message) + spec_enc_string(m.subject) + spec_enc_string(m.broker)
        + spec_enc_opt_string(m.response_subject)
}

/// Reading a whole inbound message, consuming the buffer exactly.
pub open spec fn spec_dec_input(b: Seq<u8>) -> Option<InputMessageView> {
    match spec_dec_bytes(b, 0) {
        Option::Some((message, p1)) => match spec_dec_string(b, p1) {
            Option::Some((subject, p2)) => match spec_dec_string(b, p2) {
                Option::Some((broker, p3)) => match spec_dec_opt_string(b, p3) {
                    Option::Some((response_subject, p4)) => if p4 == b.len() {
                        Option::Some(
                            InputMessageView { message, subject, broker, response_subject },
                        )
                    } else {
                        Option::None
                    },
                    Option::None => Option::None,
                },
                Option::None => Option::None,
            },
            Option::None => Option::None,
        },
        Option::None => Option::None,
    }
}

/// Law: decoding inverts encoding for inbound messages.
pub proof fn lemma_input_roundtrip(m: InputMessageView)
    requires
        spec_input_wf(m),
    ensures
        spec_dec_input(spec_enc_input(m)) == Option::Some(m),
{
    let b = spec_enc_input(m);
    let a1 = spec_enc_bytes(m.message);
    let a2 = spec_enc_string(m.subject);
    let a3 = spec_enc_string(m.broker);
    let a4 = spec_enc_opt_string(m.response_subject);
    let l1 = a1.len() as int;
    let l2 = a2.len() as int;
    let l3 = a3.len() as int;
    let l4 = a4.len() as int;
    assert(b.subrange(0, l1) =~= a1);
    lemma_dec_bytes_enc(m.message, b, 0);
    assert(b.subrange(l1, l1 + l2) =~= a2);
    lemma_dec_string_enc(m.subject, b, l1);
    assert(b.subrange(l1 + l2, l1 + l2 + l3) =~= a3);
    lemma_dec_string_enc(m.broker, b, l1 + l2);
    assert(b.subrange(l1 + l2 + l3, l1 + l2 + l3 + l4) =~= a4);
    lemma_dec_opt_string_enc(m.response_subject, b, l1 + l2 + l3);
}

/// Encodes an inbound message under the bus framing.
pub fn encode_input_message(m: &InputMessage) -> (out: Vec<u8>)
    requires
        spec_input_wf(m@),
    ensures
        out@ == spec_enc_input(m@),
{
    let mut out: Vec<u8> = Vec::new();
    push_le32(&mut out, m.message.len() as u32);
    push_bytes(&mut out, &m.message);
    enc_string(&mut out, m.subject.as_str());
    enc_string(&mut out, m.broker.as_str());
    enc_opt_string(&mut out, &m.response_subject);
    proof {
        assert(out@ =~= spec_enc_input(m@));
    }
    out
}

/// Decodes an inbound message from the bus framing.
pub fn decode_input_message(bytes: &Vec<u8>) -> (r: Option<InputMessage>)
    ensures
        match r {
            Option::Some(m) => spec_dec_input(bytes@) == Option::Some(m@),
            Option::None => spec_dec_input(bytes@) is None,
        },
{
    let (message, p1) = match dec_bytes(bytes, 0) {
        Option::None => {
            return Option::None;
        },
        Option::Some(x) => x,
    };
    let (subject, p2) = match dec_string(bytes, p1) {
        Option::None => {
            return Option::None;
        },
        Option::Some(x) => x,
    };
    let (broker, p3) = match dec_string(bytes, p2) {
        Option::None => {
            return Option::None;
        },
        Option::Some(x) => x,
    };
    let (response_subject, p4) = match dec_opt_string(bytes, p3) {
        Option::None => {
            return Option::None;
        },
        Option::Some(x) => x,
    };
    if p4 != bytes.len() {
        return Option::None;
    }
    Option::Some(InputMessage { message, subject, broker, response_subject })
}

/// An outbound message is encodable when its parts fit their length
/// prefixes.
pub open spec fn spec_output_wf(m: OutputMessageView) -> bool {
    &&& m.message.len() < 4294967296
    &&& (m.subject matches Option::Some(s) ==> encode_utf8(s).len() < 4294967296)
    &&& (m.broker matches Option::Some(s) ==> encode_utf8(s).len() < 4294967296)
    &&& (m.response_subject matches Option::Some(s) ==> encode_utf8(s).len() < 4294967296)
}

/// A whole outbound message on the wire: body, then the three optional
/// addresses.
pub open spec fn spec_enc_output(m: OutputMessageView) -> Seq<u8> {
    spec_enc_bytes(m.message) + spec_enc_opt_string(m.subject) + spec_enc_opt_string(m.broker)
        + spec_enc_opt_string(m.response_subject)
}

/// Reading a whole outbound message, consuming the buffer exactly.
pub open spec fn spec_dec_output(b: Seq<u8>) -> Option<OutputMessageView> {
    match spec_dec_bytes(b, 0) {
        Option::Some((message, p1)) => match spec_dec_opt_string(b, p1) {
            Option::Some((subject, p2)) => match spec_dec_opt_string(b, p2) {
                Option::Some((broker, p3)) => match spec_dec_opt_string(b, p3) {
                    Option::Some((response_subject, p4)) => if p4 == b.len() {
                        Option::Some(
                            OutputMessageView { message, subject, broker, response_subject },
                        )
                    } else {
                        Option::None
                    },
                    Option::None => Option::None,
                },
                Option::None => Option::None,
            },
            Option::None => Option::None,
        },
        Option::None => Option::None,
    }
}

/// Law: decoding inverts encoding for outbound messages — what the MQTT
/// adapter or a websocket peer framed is what the other side reads.
pub proof fn lemma_output_roundtrip(m: OutputMessageView)
    requires
        spec_output_wf(m),
    ensures
        spec_dec_output(spec_enc_output(m)) == Option::Some(m),
{
    let b = spec_enc_output(m);
    let a1 = spec_enc_bytes(m.message);
    let a2 = spec_enc_opt_string(m.subject);
    let a3 = spec_enc_opt_string(m.broker);
    let a4 = spec_enc_opt_string(m.response_subject);
    let l1 = a1.len() as int;
    let l2 = a2.len() as int;
    let l3 = a3.len() as int;
    let l4 = a4.len() as int;
    assert(b.subrange(0, l1) =~= a1);
    lemma_dec_bytes_enc(m.message, b, 0);
    assert(b.subrange(l1, l1 + l2) =~= a2);
    lemma_dec_opt_string_enc(m.subject, b, l1);
    assert(b.subrange(l1 + l2, l1 + l2 + l3) =~= a3);
    lemma_dec_opt_string_enc(m.broker, b, l1 + l2);
    assert(b.subrange(l1 + l2 + l3, l1 + l2 + l3 + l4) =~= a4);
    lemma_dec_opt_string_enc(m.response_subject, b, l1 + l2 + l3);
}

/// Encodes an outbound message under the bus framing, as the MQTT adapter
/// publishes it.
pub fn encode_output_message(m: &OutputMessage) -> (out: Vec<u8>)
    requires
        spec_output_wf(m@),
    ensures
        out@ == spec_enc_output(m@),
{
    let mut out: Vec<u8> = Vec::new();
    push_le32(&mut out, m.message.len() as u32);
    push_bytes(&mut out, &m.message);
    enc_opt_string(&mut out, &m.subject);
    enc_opt_string(&mut out, &m.broker);
    enc_opt_string(&mut out, &m.response_subject);
    proof {
        assert(out@ =~= spec_enc_output(m@));
    }
    out
}

/// Decodes an outbound message from the bus framing.
pub fn decode_output_message(bytes: &Vec<u8>) -> (r: Option<OutputMessage>)
    ensures
        match r {
            Option::Some(m) => spec_dec_output(bytes@) == Option::Some(m@),
            Option::None => spec_dec_output(bytes@) is None,
        },
{
    let (message, p1) = match dec_bytes(bytes, 0) {
        Option::None => {
            return Option::None;
        },
        Option::Some(x) => x,
    };
    let (subject, p2) = match dec_opt_string(bytes, p1) {
        Option::None => {
            return Option::None;
        },
        Option::Some(x) => x,
    };
    let (broker, p3) = match dec_opt_string(bytes, p2) {
        Option::None => {
            return Option::None;
        },
        Option::Some(x) => x,
    };
    let (response_subject, p4) = match dec_opt_string(bytes, p3) {
        Option::None => {
            return Option::None;
        },
        Option::Some(x) => x,
    };
    if p4 != bytes.len() {
        return Option::None;
    }
    Option::Some(OutputMessage { message, subject, broker, response_subject })
}

} // verus!
