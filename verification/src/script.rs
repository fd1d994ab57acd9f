//! The reveal script: a pay-to-pubkey check followed by the inscription
//! envelope, written with the minimal-push discipline of script builders.

use vstd::prelude::*;
use crate::types::PlanError;
use crate::bytes::{extend, spec_le_bytes, push_u32_le};

verus! {

/// Script bytes that push the data `d` on the stack: a length prefix in the
/// shortest data-push form, then the data itself.
pub open spec fn spec_push(d: Seq<u8>) -> Seq<u8> {
    if d.len() < 0x4c {
        seq![d.len() as u8] + d
    } else if d.len() < 0x100 {
        seq![0x4cu8, d.len() as u8] + d
    } else if d.len() < 0x10000 {
        seq![0x4du8] + spec_le_bytes(d.len() as nat, 2) + d
    } else {
        seq![0x4eu8] + spec_le_bytes(d.len() as nat, 4) + d
    }
}

/// Appends a minimal data push of `src` to `dst`.
pub fn push_pushdata(dst: &mut Vec<u8>, src: &Vec<u8>)
    requires
        src@.len() <= 0xFFFF_FFFF,
    ensures
        final(dst)@ == old(dst)@ + spec_push(src@),
{
    if src.len() < 0x4c {
        dst.push(src.len() as u8);
    } else if src.len() < 0x100 {
        dst.push(0x4c);
        dst.push(src.len() as u8);
    } else if src.len() < 0x10000 {
        dst.push(0x4d);
        dst.push((src.len() % 256) as u8);
        dst.push(((src.len() / 256) % 256) as u8);
        proof {
            reveal_with_fuel(spec_le_bytes, 3);
        }
    } else {
        dst.push(0x4e);
        push_u32_le(dst, src.len() as u32);
    }
    extend(dst, src);
    proof {
        assert(dst@ =~= old(dst)@ + spec_push(src@));
    }
}

/// The content of `src` chunked into pushes of at most 520 bytes each, in
/// order.
pub open spec fn spec_chunks(content: Seq<u8>) -> Seq<u8>
    decreases content.len(),
{
    if content.len() == 0 {
        Seq::empty()
    } else if content.len() <= 520 {
        spec_push(content)
    } else {
        spec_push(content.take(520)) + spec_chunks(content.skip(520))
    }
}

/// The inscription envelope: OP_FALSE OP_IF, the protocol tag "ord", a tag
/// one with the content type, a tag zero, the content in 520-byte chunks,
/// OP_ENDIF.
pub open spec fn spec_envelope(ct: Seq<u8>, content: Seq<u8>) -> Seq<u8> {
    seq![0x00u8, 0x63u8] + spec_push(seq![0x6fu8, 0x72u8, 0x64u8]) + spec_push(seq![0x01u8])
        + spec_push(ct) + spec_push(Seq::empty()) + spec_chunks(content) + seq![0x68u8]
}

/// The whole reveal script: push of the 32-byte x-only key, OP_CHECKSIG,
/// then the envelope.
pub open spec fn spec_reveal_script(pk: Seq<u8>, ct: Seq<u8>, content: Seq<u8>) -> Seq<u8> {
    spec_push(pk) + seq![0xacu8] + spec_envelope(ct, content)
}

/// Length of a minimal data push of `n` bytes.
pub open spec fn spec_push_len(n: nat) -> nat {
    n + if n < 0x4c { 1nat } else if n < 0x100 { 2nat } else if n < 0x10000 { 3nat } else { 5nat }
}

/// Length of the chunked content section.
pub open spec fn spec_chunks_len_exact(n: nat) -> nat
    decreases n,
{
    if n == 0 {
        0
    } else if n <= 520 {
        spec_push_len(n)
    } else {
        spec_push_len(520) + spec_chunks_len_exact((n - 520) as nat)
    }
}

/// The reveal script's length: a function of the content-type and body
/// lengths alone.
pub open spec fn spec_script_len(ct: nat, body: nat) -> nat {
    33 + 1 + 2 + 4 + 2 + spec_push_len(ct) + 1 + spec_chunks_len_exact(body) + 1
}

/// A push is its data plus its prefix.
pub proof fn lemma_push_len(d: Seq<u8>)
    ensures
        spec_push(d).len() == spec_push_len(d.len()),
{
    reveal_with_fuel(spec_le_bytes, 6);
}

/// The chunked section's length is a function of the body length alone.
pub proof fn lemma_chunks_len_exact(c: Seq<u8>)
    ensures
        spec_chunks(c).len() == spec_chunks_len_exact(c.len()),
    decreases c.len(),
{
    if c.len() == 0 {
    } else if c.len() <= 520 {
        lemma_push_len(c);
    } else {
        lemma_push_len(c.take(520));
        lemma_chunks_len_exact(c.skip(520));
    }
}

/// The reveal script's length in closed form.
pub proof fn lemma_reveal_script_len(pk: Seq<u8>, ct: Seq<u8>, body: Seq<u8>)
    requires
        pk.len() == 32,
    ensures
        spec_reveal_script(pk, ct, body).len() == spec_script_len(ct.len(), body.len()),
{
    lemma_push_len(pk);
    lemma_push_len(seq![0x6fu8, 0x72u8, 0x64u8]);
    lemma_push_len(seq![0x01u8]);
    lemma_push_len(ct);
    lemma_push_len(Seq::empty());
    lemma_chunks_len_exact(body);
}

/// An inscription: its content type and its body bytes.
#[derive(Debug)]
pub struct Inscription {
    pub content_type: Vec<u8>,
    pub body: Vec<u8>,
}

impl Inscription {
    pub open spec fn wf(&self) -> bool {
        &&& 1 <= self.content_type@.len() <= 100
        &&& self.body@.len() <= 3_800_000
    }
}

/// The part of a name after its last dot; the whole name if it has none.
pub open spec fn spec_after_last_dot(e: Seq<u8>) -> Seq<u8>
    decreases e.len(),
{
    if e.len() == 0 {
        Seq::empty()
    } else if e.last() == 0x2eu8 {
        Seq::empty()
    } else {
        spec_after_last_dot(e.drop_last()).push(e.last())
    }
}

proof fn lemma_after_last_dot(e: Seq<u8>, start: int)
    requires
        0 <= start <= e.len(),
        start == 0 || e[start - 1] == 0x2eu8,
        forall|k: int| start <= k < e.len() ==> e[k] != 0x2eu8,
    ensures
        spec_after_last_dot(e) == e.subrange(start, e.len() as int),
    decreases e.len(),
{
    if e.len() == start {
        if start == 0 {
            assert(spec_after_last_dot(e) =~= e.subrange(0, 0));
        } else {
            assert(e.last() == 0x2eu8);
            assert(spec_after_last_dot(e) =~= e.subrange(start, e.len() as int));
        }
    } else {
        assert(e[e.len() - 1] != 0x2eu8);
        lemma_after_last_dot(e.drop_last(), start);
        assert(spec_after_last_dot(e) =~= e.subrange(start, e.len() as int));
    }
}

/// The media type registered for an extension, if any.
pub open spec fn spec_media(ext: Seq<u8>) -> Option<Seq<u8>> {
    if ext =~= seq![0x74u8, 0x78u8, 0x74u8] {
        Some(seq![0x74u8, 0x65u8, 0x78u8, 0x74u8, 0x2fu8, 0x70u8, 0x6cu8, 0x61u8, 0x69u8, 0x6eu8, 0x3bu8, 0x63u8, 0x68u8, 0x61u8, 0x72u8, 0x73u8, 0x65u8, 0x74u8, 0x3du8, 0x75u8, 0x74u8, 0x66u8, 0x2du8, 0x38u8])
    } else if ext =~= seq![0x6au8, 0x73u8, 0x6fu8, 0x6eu8] {
        Some(seq![0x61u8, 0x70u8, 0x70u8, 0x6cu8, 0x69u8, 0x63u8, 0x61u8, 0x74u8, 0x69u8, 0x6fu8, 0x6eu8, 0x2fu8, 0x6au8, 0x73u8, 0x6fu8, 0x6eu8])
    } else if ext =~= seq![0x70u8, 0x6eu8, 0x67u8] {
        Some(seq![0x69u8, 0x6du8, 0x61u8, 0x67u8, 0x65u8, 0x2fu8, 0x70u8, 0x6eu8, 0x67u8])
    } else if ext =~= seq![0x6au8, 0x70u8, 0x67u8] {
        Some(seq![0x69u8, 0x6du8, 0x61u8, 0x67u8, 0x65u8, 0x2fu8, 0x6au8, 0x70u8, 0x65u8, 0x67u8])
    } else if ext =~= seq![0x6au8, 0x70u8, 0x65u8, 0x67u8] {
        Some(seq![0x69u8, 0x6du8, 0x61u8, 0x67u8, 0x65u8, 0x2fu8, 0x6au8, 0x70u8, 0x65u8, 0x67u8])
    } else if ext =~= seq![0x67u8, 0x69u8, 0x66u8] {
        Some(seq![0x69u8, 0x6du8, 0x61u8, 0x67u8, 0x65u8, 0x2fu8, 0x67u8, 0x69u8, 0x66u8])
    } else if ext =~= seq![0x77u8, 0x65u8, 0x62u8, 0x70u8] {
        Some(seq![0x69u8, 0x6du8, 0x61u8, 0x67u8, 0x65u8, 0x2fu8, 0x77u8, 0x65u8, 0x62u8, 0x70u8])
    } else if ext =~= seq![0x68u8, 0x74u8, 0x6du8, 0x6cu8] {
        Some(seq![0x74u8, 0x65u8, 0x78u8, 0x74u8, 0x2fu8, 0x68u8, 0x74u8, 0x6du8, 0x6cu8, 0x3bu8, 0x63u8, 0x68u8, 0x61u8, 0x72u8, 0x73u8, 0x65u8, 0x74u8, 0x3du8, 0x75u8, 0x74u8, 0x66u8, 0x2du8, 0x38u8])
    } else if ext =~= seq![0x73u8, 0x76u8, 0x67u8] {
        Some(seq![0x69u8, 0x6du8, 0x61u8, 0x67u8, 0x65u8, 0x2fu8, 0x73u8, 0x76u8, 0x67u8, 0x2bu8, 0x78u8, 0x6du8, 0x6cu8])
    } else {
        None
    }
}

/// Looks an extension up in the media table.
pub fn media_lookup(ext: &Vec<u8>) -> (r: Option<Vec<u8>>)
    ensures
        r is Some <==> spec_media(ext@) is Some,
        r is Some ==> Some(r.unwrap()@) == spec_media(ext@),
        r is Some ==> 1 <= r.unwrap()@.len() <= 100,
{
    let txt: Vec<u8> = vec![0x74, 0x78, 0x74];
    let json: Vec<u8> = vec![0x6a, 0x73, 0x6f, 0x6e];
    let png: Vec<u8> = vec![0x70, 0x6e, 0x67];
    let jpg: Vec<u8> = vec![0x6a, 0x70, 0x67];
    let jpeg: Vec<u8> = vec![0x6a, 0x70, 0x65, 0x67];
    let gif: Vec<u8> = vec![0x67, 0x69, 0x66];
    let webp: Vec<u8> = vec![0x77, 0x65, 0x62, 0x70];
    let html: Vec<u8> = vec![0x68, 0x74, 0x6d, 0x6c];
    let svg: Vec<u8> = vec![0x73, 0x76, 0x67];
    let r: Option<Vec<u8>> = if crate::bytes::bytes_eq(ext, &txt) {
        Some(vec![0x74, 0x65, 0x78, 0x74, 0x2f, 0x70, 0x6c, 0x61, 0x69, 0x6e, 0x3b, 0x63, 0x68, 0x61, 0x72, 0x73, 0x65, 0x74, 0x3d, 0x75, 0x74, 0x66, 0x2d, 0x38])
    } else if crate::bytes::bytes_eq(ext, &json) {
        Some(vec![0x61, 0x70, 0x70, 0x6c, 0x69, 0x63, 0x61, 0x74, 0x69, 0x6f, 0x6e, 0x2f, 0x6a, 0x73, 0x6f, 0x6e])
    } else if crate::bytes::bytes_eq(ext, &png) {
        Some(vec![0x69, 0x6d, 0x61, 0x67, 0x65, 0x2f, 0x70, 0x6e, 0x67])
    } else if crate::bytes::bytes_eq(ext, &jpg) {
        Some(vec![0x69, 0x6d, 0x61, 0x67, 0x65, 0x2f, 0x6a, 0x70, 0x65, 0x67])
    } else if crate::bytes::bytes_eq(ext, &jpeg) {
        Some(vec![0x69, 0x6d, 0x61, 0x67, 0x65, 0x2f, 0x6a, 0x70, 0x65, 0x67])
    } else if crate::bytes::bytes_eq(ext, &gif) {
        Some(vec![0x69, 0x6d, 0x61, 0x67, 0x65, 0x2f, 0x67, 0x69, 0x66])
    } else if crate::bytes::bytes_eq(ext, &webp) {
        Some(vec![0x69, 0x6d, 0x61, 0x67, 0x65, 0x2f, 0x77, 0x65, 0x62, 0x70])
    } else if crate::bytes::bytes_eq(ext, &html) {
        Some(vec![0x74, 0x65, 0x78, 0x74, 0x2f, 0x68, 0x74, 0x6d, 0x6c, 0x3b, 0x63, 0x68, 0x61, 0x72, 0x73, 0x65, 0x74, 0x3d, 0x75, 0x74, 0x66, 0x2d, 0x38])
    } else if crate::bytes::bytes_eq(ext, &svg) {
        Some(vec![0x69, 0x6d, 0x61, 0x67, 0x65, 0x2f, 0x73, 0x76, 0x67, 0x2b, 0x78, 0x6d, 0x6c])
    } else {
        None
    };
    r
}

/// The part of `name` after its last dot, as a fresh vector.
pub fn after_last_dot(name: &Vec<u8>) -> (r: Vec<u8>)
    ensures
        r@ == spec_after_last_dot(name@),
{
    let mut j: usize = name.len();
    while j > 0
        invariant
            j <= name.len(),
            forall|k: int| j <= k < name@.len() ==> name@[k] != 0x2eu8,
        decreases j,
    {
        if name[j - 1] == 0x2e {
            let mut r: Vec<u8> = Vec::new();
            let mut i: usize = j;
            while i < name.len()
                invariant
                    j <= i <= name.len(),
                    r@ == name@.subrange(j as int, i as int),
                decreases name.len() - i,
            {
                r.push(name[i]);
                proof {
                    assert(r@ =~= name@.subrange(j as int, i + 1));
                }
                i += 1;
            }
            proof {
                lemma_after_last_dot(name@, j as int);
            }
            return r;
        }
        j -= 1;
    }
    proof {
        lemma_after_last_dot(name@, 0);
    }
    let r = crate::bytes::dup(name);
    proof {
        assert(name@.subrange(0, name@.len() as int) =~= name@);
    }
    r
}

impl Inscription {
    /// Builds an inscription from an extension-like name and content bytes.
    /// The extension's last dot-separated part selects the media type;
    /// unknown ones are rejected.
    pub fn from_content(extension: &Vec<u8>, content: Vec<u8>) -> (r: Result<Inscription, PlanError>)
        requires
            content@.len() <= 3_800_000,
        ensures
            r is Ok <==> spec_media(spec_after_last_dot(extension@)) is Some,
            r is Err ==> r.unwrap_err() == PlanError::BadRequest,
            r is Ok ==> Some(r.unwrap().content_type@) == spec_media(spec_after_last_dot(extension@)),
            r is Ok ==> r.unwrap().body@ == content@,
            r is Ok ==> r.unwrap().wf(),
    {
        let ext = after_last_dot(extension);
        match media_lookup(&ext) {
            Some(ct) => Ok(Inscription { content_type: ct, body: content }),
            None => Err(PlanError::BadRequest),
        }
    }
}

/// Builds the reveal script for a key and an inscription.
pub fn build_reveal_script(pk: &Vec<u8>, ins: &Inscription) -> (r: Vec<u8>)
    requires
        pk@.len() == 32,
        ins.wf(),
    ensures
        r@ == spec_reveal_script(pk@, ins.content_type@, ins.body@),
        r@.len() == spec_script_len(ins.content_type@.len(), ins.body@.len()),
        r@.len() <= 3_825_000,
{
    let mut s: Vec<u8> = Vec::new();
    push_pushdata(&mut s, pk);
    s.push(0xac);
    s.push(0x00);
    s.push(0x63);
    let tag_ord: Vec<u8> = vec![0x6f, 0x72, 0x64];
    push_pushdata(&mut s, &tag_ord);
    let tag_one: Vec<u8> = vec![0x01];
    push_pushdata(&mut s, &tag_one);
    push_pushdata(&mut s, &ins.content_type);
    let tag_zero: Vec<u8> = Vec::new();
    push_pushdata(&mut s, &tag_zero);
    let ghost prefix = s@;
    proof {
        assert(prefix =~= spec_push(pk@) + seq![0xacu8] + seq![0x00u8, 0x63u8]
            + spec_push(seq![0x6fu8, 0x72u8, 0x64u8]) + spec_push(seq![0x01u8])
            + spec_push(ins.content_type@) + spec_push(Seq::empty()));
        assert(prefix.len() <= 35 + 2 + 4 + 2 + 102 + 1);
        assert(ins.body@.skip(0) =~= ins.body@);
    }
    let mut off: usize = 0;
    while off < ins.body.len()
        invariant
            ins.wf(),
            off <= ins.body@.len(),
            s@ + spec_chunks(ins.body@.skip(off as int)) == prefix + spec_chunks(ins.body@),
        decreases ins.body.len() - off,
    {
        let ghost rest = ins.body@.skip(off as int);
        let end = if ins.body.len() - off > 520 { off + 520 } else { ins.body.len() };
        let mut chunk: Vec<u8> = Vec::new();
        let mut i: usize = off;
        while i < end
            invariant
                off <= i <= end,
                end <= ins.body@.len(),
                chunk@ == ins.body@.subrange(off as int, i as int),
            decreases end - i,
        {
            chunk.push(ins.body[i]);
            proof {
                assert(chunk@ =~= ins.body@.subrange(off as int, i + 1));
            }
            i += 1;
        }
        push_pushdata(&mut s, &chunk);
        proof {
            if rest.len() <= 520 {
                assert(chunk@ =~= rest);
                assert(ins.body@.skip(end as int) =~= Seq::<u8>::empty());
            } else {
                assert(chunk@ =~= rest.take(520));
                assert(ins.body@.skip(end as int) =~= rest.skip(520));
            }
            assert(s@ + spec_chunks(ins.body@.skip(end as int)) =~= prefix + spec_chunks(ins.body@));
        }
        off = end;
    }
    proof {
        assert(ins.body@.skip(ins.body@.len() as int) =~= Seq::<u8>::empty());
        assert(s@ =~= prefix + spec_chunks(ins.body@));
    }
    s.push(0x68);
    proof {
        assert(s@ =~= spec_reveal_script(pk@, ins.content_type@, ins.body@));
        lemma_chunks_len(ins.body@);
        assert((ins.body@.len() + 519) / 520 <= 7309);
        lemma_reveal_script_len(pk@, ins.content_type@, ins.body@);
    }
    s
}

/// The chunked form of a byte string adds at most three bytes of push
/// prefix for each started chunk of 520 bytes.
proof fn lemma_chunks_len(c: Seq<u8>)
    ensures
        spec_chunks(c).len() <= c.len() + ((c.len() + 519) / 520) * 3,
    decreases c.len(),
{
    reveal_with_fuel(spec_le_bytes, 3);
    if c.len() == 0 {
    } else if c.len() <= 520 {
    } else {
        lemma_chunks_len(c.skip(520));
        let l = c.len() as int;
        assert(((l - 1) + 520) / 520 == (l - 1) / 520 + 1) by (nonlinear_arith);
    }
}

} // verus!

