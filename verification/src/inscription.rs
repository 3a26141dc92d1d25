//! Inscription envelopes: tagged, length-prefixed push-data structures
//! embedded in a transaction input's witness.  An envelope is the byte
//! sequence
//!
//! `0x00 0x63` (false, if) `0x03 "ord"` (protocol push) `0x01 0x01` (the
//! content-type tag, a one-byte push of 1) `<push: content type>` `0x00`
//! (body separator) `<pushes: body chunks, concatenated>` `0x68` (endif).
//!
//! A data push is an opcode `1..=75` followed by that many bytes, or `0x4c`
//! followed by a one-byte length and that many bytes.  Malformed envelopes
//! are simply not recognized: absence, not failure.  When one input's
//! witness carries several envelopes, only the first is bound — the rule
//! for later ones is a documented policy choice of this index.

use vstd::prelude::*;

verus! {

/// Globally unique inscription identifier: the revealing transaction and
/// the index of the input that carried the envelope.
#[derive(Clone, Copy, PartialEq, Eq, Structural, Debug, Hash)]
pub struct InscriptionId {
    /// The revealing transaction.
    pub txid: u64,
    /// Index of the revealing input within that transaction.
    pub index: u64,
}

/// A parsed inscription: its declared content type and its body.
#[derive(Clone, Debug)]
pub struct Inscription {
    /// Declared content type.
    pub content_type: Vec<u8>,
    /// Body, the concatenation of the envelope's body pushes.
    pub body: Vec<u8>,
}

/// One data push starting at `i`: the pushed bytes and the position after.
pub open spec fn spec_parse_push(s: Seq<u8>, i: int) -> Option<(Seq<u8>, int)> {
    if 0 <= i < s.len() {
        let op = s[i] as int;
        if 1 <= op <= 75 {
            if i + 1 + op <= s.len() {
                Option::Some((s.subrange(i + 1, i + 1 + op), i + 1 + op))
            } else {
                Option::None
            }
        } else if op == 76 {
            if i + 2 <= s.len() && i + 2 + (s[i + 1] as int) <= s.len() {
                Option::Some(
                    (s.subrange(i + 2, i + 2 + (s[i + 1] as int)), i + 2 + (s[i + 1] as int)),
                )
            } else {
                Option::None
            }
        } else {
            Option::None
        }
    } else {
        Option::None
    }
}

/// Body pushes from `i` up to the closing endif: their concatenation and
/// the position after the endif.
pub open spec fn spec_parse_body(s: Seq<u8>, i: int) -> Option<(Seq<u8>, int)>
    decreases s.len() - i,
{
    if i < 0 || i >= s.len() {
        Option::None
    } else if s[i] == 0x68 {
        Option::Some((Seq::<u8>::empty(), i + 1))
    } else {
        match spec_parse_push(s, i) {
            Option::None => Option::None,
            Option::Some((d, j)) => match spec_parse_body(s, j) {
                Option::None => Option::None,
                Option::Some((rest, k)) => Option::Some((d + rest, k)),
            },
        }
    }
}

/// The envelope starting exactly at `i`, if one does: content type and body.
pub open spec fn spec_envelope_at(s: Seq<u8>, i: int) -> Option<(Seq<u8>, Seq<u8>)> {
    if 0 <= i && i + 8 <= s.len() && s[i] == 0x00 && s[i + 1] == 0x63 && s[i + 2] == 0x03 && s[i
        + 3] == 0x6f && s[i + 4] == 0x72 && s[i + 5] == 0x64 && s[i + 6] == 0x01 && s[i + 7]
        == 0x01 {
        match spec_parse_push(s, i + 8) {
            Option::None => Option::None,
            Option::Some((ct, j)) => if j < s.len() && s[j] == 0x00 {
                match spec_parse_body(s, j + 1) {
                    Option::None => Option::None,
                    Option::Some((body, _k)) => Option::Some((ct, body)),
                }
            } else {
                Option::None
            },
        }
    } else {
        Option::None
    }
}

/// The first envelope at or after `i` in one witness element.
pub open spec fn spec_first_envelope(s: Seq<u8>, i: int) -> Option<(Seq<u8>, Seq<u8>)>
    decreases s.len() - i,
{
    if i < 0 || i >= s.len() {
        Option::None
    } else {
        match spec_envelope_at(s, i) {
            Option::Some(e) => Option::Some(e),
            Option::None => spec_first_envelope(s, i + 1),
        }
    }
}

/// Mathematical view of a witness stack.
pub open spec fn deep_bytes(w: Seq<Vec<u8>>) -> Seq<Seq<u8>> {
    w.map_values(|x: Vec<u8>| x@)
}

/// The first envelope in a witness stack, scanning elements in order.
pub open spec fn spec_witness_envelope(w: Seq<Seq<u8>>) -> Option<(Seq<u8>, Seq<u8>)>
    decreases w.len(),
{
    if w.len() == 0 {
        Option::None
    } else {
        match spec_first_envelope(w[0], 0) {
            Option::Some(e) => Option::Some(e),
            Option::None => spec_witness_envelope(w.drop_first()),
        }
    }
}

/// Copies `src[from..to)` into a fresh vector.
pub fn copy_bytes(src: &Vec<u8>, from: usize, to: usize) -> (out: Vec<u8>)
    requires
        from <= to <= src@.len(),
    ensures
        out@ == src@.subrange(from as int, to as int),
{
    let mut out: Vec<u8> = Vec::new();
    let mut j: usize = from;
    while j < to
        invariant
            from <= j <= to <= src@.len(),
            out@ =~= src@.subrange(from as int, j as int),
        decreases to - j,
    {
        out.push(src[j]);
        proof {
            assert(out@ =~= src@.subrange(from as int, j as int + 1));
        }
        j = j + 1;
    }
    out
}

/// One data push starting at `i`, exactly as `spec_parse_push` describes.
fn parse_push(s: &Vec<u8>, i: usize) -> (r: Option<(Vec<u8>, usize)>)
    requires
        i < s@.len(),
    ensures
        match r {
            Option::Some(p) => spec_parse_push(s@, i as int) == Option::Some((p.0@, p.1 as int))
                && i < p.1 <= s@.len(),
            Option::None => spec_parse_push(s@, i as int) is None,
        },
{
    let op = s[i];
    if 1 <= op && op <= 75 {
        let n = op as usize;
        if s.len() - i >= 1 && n <= s.len() - i - 1 {
            let data = copy_bytes(s, i + 1, i + 1 + n);
            Option::Some((data, i + 1 + n))
        } else {
            Option::None
        }
    } else if op == 76 {
        if s.len() - i >= 2 {
            let n = s[i + 1] as usize;
            if n <= s.len() - i - 2 {
                let data = copy_bytes(s, i + 2, i + 2 + n);
                Option::Some((data, i + 2 + n))
            } else {
                Option::None
            }
        } else {
            Option::None
        }
    } else {
        Option::None
    }
}

/// Body pushes up to the closing endif, exactly as `spec_parse_body`
/// describes.
#[verifier::loop_isolation(false)]
fn parse_body(s: &Vec<u8>, i: usize) -> (r: Option<(Vec<u8>, usize)>)
    ensures
        match r {
            Option::Some(p) => spec_parse_body(s@, i as int) == Option::Some((p.0@, p.1 as int)),
            Option::None => spec_parse_body(s@, i as int) is None,
        },
{
    let mut acc: Vec<u8> = Vec::new();
    let mut pos: usize = i;
    proof {
        assert(acc@ =~= Seq::<u8>::empty());
    }
    loop
        invariant
            i <= pos,
            (match spec_parse_body(s@, pos as int) {
                Option::None => spec_parse_body(s@, i as int) is None,
                Option::Some(p) => spec_parse_body(s@, i as int) == Option::Some(
                    (acc@ + p.0, p.1),
                ),
            }),
        decreases s@.len() - pos,
    {
        if pos >= s.len() {
            return Option::None;
        }
        if s[pos] == 0x68 {
            proof {
                assert(acc@ + Seq::<u8>::empty() =~= acc@);
            }
            return Option::Some((acc, pos + 1));
        }
        let step = parse_push(s, pos);
        match step {
            Option::None => {
                return Option::None;
            },
            Option::Some(p) => {
                let (data, j) = p;
                let ghost apre = acc@;
                let mut k: usize = 0;
                while k < data.len()
                    invariant
                        k <= data@.len(),
                        acc@ =~= apre + data@.take(k as int),
                    decreases data@.len() - k,
                {
                    acc.push(data[k]);
                    proof {
                        assert(apre + data@.take(k as int + 1) =~= (apre + data@.take(
                            k as int,
                        )).push(data@[k as int]));
                    }
                    k = k + 1;
                }
                proof {
                    assert(data@.take(data@.len() as int) =~= data@);
                    match spec_parse_body(s@, j as int) {
                        Option::None => {},
                        Option::Some(rest) => {
                            assert(apre + (data@ + rest.0) =~= acc@ + rest.0);
                        },
                    }
                }
                pos = j;
            },
        }
    }
}

/// The envelope starting exactly at `i`, as `spec_envelope_at` describes.
#[verifier::loop_isolation(false)]
fn envelope_at(s: &Vec<u8>, i: usize) -> (r: Option<Inscription>)
    requires
        i < s@.len(),
    ensures
        match r {
            Option::Some(insc) => spec_envelope_at(s@, i as int) == Option::Some(
                (insc.content_type@, insc.body@),
            ),
            Option::None => spec_envelope_at(s@, i as int) is None,
        },
{
    if s.len() - i < 8 {
        return Option::None;
    }
    if !(s[i] == 0x00 && s[i + 1] == 0x63 && s[i + 2] == 0x03 && s[i + 3] == 0x6f && s[i + 4]
        == 0x72 && s[i + 5] == 0x64 && s[i + 6] == 0x01 && s[i + 7] == 0x01) {
        return Option::None;
    }
    if i + 8 >= s.len() {
        return Option::None;
    }
    let ct_push = parse_push(s, i + 8);
    match ct_push {
        Option::None => Option::None,
        Option::Some(p) => {
            let (ct, j) = p;
            if j >= s.len() {
                return Option::None;
            }
            if s[j] != 0x00 {
                return Option::None;
            }
            let body_res = parse_body(s, j + 1);
            match body_res {
                Option::None => Option::None,
                Option::Some(bp) => {
                    let (body, _k) = bp;
                    Option::Some(Inscription { content_type: ct, body })
                },
            }
        },
    }
}

/// The first envelope in one witness element.
#[verifier::loop_isolation(false)]
fn first_envelope(s: &Vec<u8>) -> (r: Option<Inscription>)
    ensures
        match r {
            Option::Some(insc) => spec_first_envelope(s@, 0) == Option::Some(
                (insc.content_type@, insc.body@),
            ),
            Option::None => spec_first_envelope(s@, 0) is None,
        },
{
    let mut i: usize = 0;
    while i < s.len()
        invariant
            i <= s@.len(),
            spec_first_envelope(s@, 0) == spec_first_envelope(s@, i as int),
        decreases s@.len() - i,
    {
        let here = envelope_at(s, i);
        match here {
            Option::Some(insc) => {
                return Option::Some(insc);
            },
            Option::None => {},
        }
        i = i + 1;
    }
    Option::None
}

/// The first envelope in a witness stack, scanning elements in order: the
/// inscription revealed by an input, if any.
#[verifier::loop_isolation(false)]
pub fn parse_witness_envelope(w: &Vec<Vec<u8>>) -> (r: Option<Inscription>)
    ensures
        match r {
            Option::Some(insc) => spec_witness_envelope(deep_bytes(w@)) == Option::Some(
                (insc.content_type@, insc.body@),
            ),
            Option::None => spec_witness_envelope(deep_bytes(w@)) is None,
        },
{
    let ghost dw = deep_bytes(w@);
    let mut k: usize = 0;
    proof {
        assert(dw.skip(0) =~= dw);
    }
    while k < w.len()
        invariant
            k <= w@.len(),
            dw == deep_bytes(w@),
            dw.len() == w@.len(),
            spec_witness_envelope(dw) == spec_witness_envelope(dw.skip(k as int)),
        decreases w@.len() - k,
    {
        proof {
            assert(dw.skip(k as int)[0] == dw[k as int]);
            assert(dw.skip(k as int).drop_first() =~= dw.skip(k as int + 1));
        }
        let found = first_envelope(&w[k]);
        match found {
            Option::Some(insc) => {
                return Option::Some(insc);
            },
            Option::None => {},
        }
        k = k + 1;
    }
    proof {
        assert(dw.skip(k as int) =~= Seq::<Seq<u8>>::empty());
    }
    Option::None
}

} // verus!
