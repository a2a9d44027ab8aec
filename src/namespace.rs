//! The toolchain's content hash: a name for the directory that holds the
//! intermediate files built with one set of tools and options.

use vstd::prelude::*;
use crate::options::views;

verus! {

/// The BLAKE3 key derived from `data` under `context`.
pub uninterp spec fn blake3_derived(context: Seq<char>, data: Seq<u8>) -> Seq<u8>;

/// The URL-safe base64 text, without padding, of `bytes`.
pub uninterp spec fn base64_url(bytes: Seq<u8>) -> Seq<char>;

/// Relies on `blake3::derive_key`: 32 bytes that depend on the context and
/// the key material alone.
#[verifier::external_body]
fn derive_key(context: &str, data: &Vec<u8>) -> (r: Vec<u8>)
    ensures
        r@ == blake3_derived(context@, data@),
        r@.len() == 32,
{
    blake3::derive_key(context, data.as_slice()).to_vec()
}

/// Relies on `base64::encode_config` with `URL_SAFE_NO_PAD`: the text
/// depends on the bytes alone, its alphabet (`A`–`Z`, `a`–`z`, `0`–`9`,
/// `-`, `_`) has no `/`, and its length is the one `encoded_size` gives
/// without padding: four characters per three bytes, two or three for the rest.
#[verifier::external_body]
fn encode_url_safe(bytes: &Vec<u8>) -> (r: String)
    requires
        bytes@.len() <= 1024,
    ensures
        r@ == base64_url(bytes@),
        forall|i: int| 0 <= i < r@.len() ==> r@[i] != '/',
        r@.len() == 4 * (bytes@.len() / 3) + (if bytes@.len() % 3 == 1 {
            2int
        } else if bytes@.len() % 3 == 2 {
            3int
        } else {
            0int
        }),
{
    base64::encode_config(bytes.as_slice(), base64::URL_SAFE_NO_PAD)
}

/// Four bytes, least significant first.
pub open spec fn le_bytes(x: u32) -> Seq<u8> {
    seq![
        (x % 256) as u8,
        ((x / 256) % 256) as u8,
        ((x / 65536) % 256) as u8,
        ((x / 16777216) % 256) as u8,
    ]
}

pub open spec fn chars_bytes(s: Seq<char>) -> Seq<u8>
    decreases s.len(),
{
    if s.len() == 0 {
        Seq::empty()
    } else {
        chars_bytes(s.drop_last()) + le_bytes(s.last() as u32)
    }
}

/// The bytes that stand for a list of texts: for each, its length in
/// characters, then its characters, four bytes each.
pub open spec fn encode_texts(v: Seq<Seq<char>>) -> Seq<u8>
    decreases v.len(),
{
    if v.len() == 0 {
        Seq::empty()
    } else {
        text_bytes(v[0]) + encode_texts(v.drop_first())
    }
}

/// The bytes of one text: its length, then its characters.
pub open spec fn text_bytes(t: Seq<char>) -> Seq<u8> {
    le_bytes(t.len() as u32) + chars_bytes(t)
}

proof fn lemma_encode_push(v: Seq<Seq<char>>, t: Seq<char>)
    ensures
        encode_texts(v.push(t)) == encode_texts(v) + text_bytes(t),
    decreases v.len(),
{
    if v.len() == 0 {
        assert(v.push(t).drop_first() =~= Seq::<Seq<char>>::empty());
        assert(v.push(t)[0] == t);
        assert(encode_texts(v.push(t).drop_first()) == Seq::<u8>::empty());
        assert(encode_texts(v.push(t)) =~= text_bytes(t) + Seq::<u8>::empty());
        assert(encode_texts(v) + text_bytes(t) =~= text_bytes(t));
    } else {
        lemma_encode_push(v.drop_first(), t);
        assert(v.push(t).drop_first() =~= v.drop_first().push(t));
        assert(v.push(t)[0] == v[0]);
        assert(encode_texts(v.push(t)) =~= text_bytes(v[0]) + (encode_texts(v.drop_first()) + text_bytes(t)));
    }
}

proof fn lemma_le_bytes_injective(x: u32, y: u32)
    requires
        le_bytes(x) == le_bytes(y),
    ensures
        x == y,
{
    let bx = le_bytes(x);
    let by_ = le_bytes(y);
    assert(bx[0] == by_[0] && bx[1] == by_[1] && bx[2] == by_[2] && bx[3] == by_[3]);
    assert(x % 256 == y % 256);
    assert((x / 256) % 256 == (y / 256) % 256);
    assert((x / 65536) % 256 == (y / 65536) % 256);
    assert((x / 16777216) % 256 == (y / 16777216) % 256);
    assert(x == x % 256 + 256 * ((x / 256) % 256) + 65536 * ((x / 65536) % 256) + 16777216 * ((x / 16777216) % 256)) by (nonlinear_arith);
    assert(y == y % 256 + 256 * ((y / 256) % 256) + 65536 * ((y / 65536) % 256) + 16777216 * ((y / 16777216) % 256)) by (nonlinear_arith);
}

proof fn lemma_chars_bytes_len(s: Seq<char>)
    ensures
        chars_bytes(s).len() == 4 * s.len(),
    decreases s.len(),
{
    if s.len() > 0 {
        lemma_chars_bytes_len(s.drop_last());
    }
}

/// Characters are Unicode scalar values.
pub open spec fn scalars(s: Seq<char>) -> bool {
    forall|i: int| 0 <= i < s.len() ==> 0 <= (#[trigger] s[i]) as int <= 0x10FFFF
}

proof fn lemma_chars_bytes_injective(s: Seq<char>, t: Seq<char>)
    requires
        scalars(s),
        scalars(t),
        s.len() == t.len(),
        chars_bytes(s) == chars_bytes(t),
    ensures
        s == t,
    decreases s.len(),
{
    if s.len() > 0 {
        let a = chars_bytes(s.drop_last());
        let b = chars_bytes(t.drop_last());
        lemma_chars_bytes_len(s.drop_last());
        lemma_chars_bytes_len(t.drop_last());
        assert(chars_bytes(s) == a + le_bytes(s.last() as u32));
        assert(chars_bytes(t) == b + le_bytes(t.last() as u32));
        assert((a + le_bytes(s.last() as u32)).subrange(0, a.len() as int) =~= a);
        assert((b + le_bytes(t.last() as u32)).subrange(0, b.len() as int) =~= b);
        assert((a + le_bytes(s.last() as u32)).subrange(a.len() as int, a.len() as int + 4) =~= le_bytes(s.last() as u32));
        assert((b + le_bytes(t.last() as u32)).subrange(b.len() as int, b.len() as int + 4) =~= le_bytes(t.last() as u32));
        assert(scalars(s.drop_last()) && scalars(t.drop_last())) by {
            assert forall|i: int| 0 <= i < s.drop_last().len() implies 0 <= (#[trigger] s.drop_last()[i]) as int <= 0x10FFFF by {
                assert(s.drop_last()[i] == s[i]);
            }
            assert forall|i: int| 0 <= i < t.drop_last().len() implies 0 <= (#[trigger] t.drop_last()[i]) as int <= 0x10FFFF by {
                assert(t.drop_last()[i] == t[i]);
            }
        }
        lemma_chars_bytes_injective(s.drop_last(), t.drop_last());
        lemma_le_bytes_injective(s.last() as u32, t.last() as u32);
        assert((s.last() as u32) == (t.last() as u32));
        assert(0 <= s[s.len() - 1] as int <= 0x10FFFF);
        assert(0 <= t[t.len() - 1] as int <= 0x10FFFF);
        assert(s.last() as u32 as int == s.last() as int);
        assert(t.last() as u32 as int == t.last() as int);
        assert(s.last() == t.last());
        assert(s =~= s.drop_last().push(s.last()));
        assert(t =~= t.drop_last().push(t.last()));
    } else {
        assert(s =~= t);
    }
}

/// Texts that each fit a 32-bit length.
pub open spec fn fits(v: Seq<Seq<char>>) -> bool {
    forall|k: int| 0 <= k < v.len() ==> (#[trigger] v[k]).len() <= u32::MAX
}

proof fn lemma_char_range(c: char)
    ensures
        0 <= c as int <= 0x10FFFF,
{
}

/// Every text is made of Unicode scalar values.
pub proof fn lemma_scalars(s: Seq<char>)
    ensures
        scalars(s),
{
    assert forall|i: int| 0 <= i < s.len() implies 0 <= (#[trigger] s[i]) as int <= 0x10FFFF by {
        lemma_char_range(s[i]);
    }
}

/// Different tool and option lists are hashed as different bytes: a change
/// to any of them changes what the toolchain hash is computed from.
pub proof fn lemma_encoding_injective(v: Seq<Seq<char>>, w: Seq<Seq<char>>)
    requires
        fits(v),
        fits(w),
        encode_texts(v) == encode_texts(w),
    ensures
        v == w,
    decreases v.len(),
{
    if v.len() == 0 || w.len() == 0 {
        if v.len() > 0 {
            assert(encode_texts(v).len() >= 4);
        }
        if w.len() > 0 {
            assert(encode_texts(w).len() >= 4);
        }
        assert(v =~= w);
    } else {
        let x = v[0];
        let y = w[0];
        lemma_scalars(x);
        lemma_scalars(y);
        assert(x.len() <= u32::MAX && y.len() <= u32::MAX);
        lemma_chars_bytes_len(x);
        lemma_chars_bytes_len(y);
        let ev = encode_texts(v);
        assert(ev.subrange(0, 4) =~= le_bytes(x.len() as u32));
        assert(encode_texts(w).subrange(0, 4) =~= le_bytes(y.len() as u32));
        lemma_le_bytes_injective(x.len() as u32, y.len() as u32);
        let n: int = 4 + 4 * x.len() as int;
        assert(ev.subrange(4, n) =~= chars_bytes(x));
        assert(encode_texts(w).subrange(4, n) =~= chars_bytes(y));
        lemma_chars_bytes_injective(x, y);
        assert(ev.subrange(n, ev.len() as int) =~= encode_texts(v.drop_first()));
        assert(encode_texts(w).subrange(n, ev.len() as int) =~= encode_texts(w.drop_first()));
        assert(fits(v.drop_first())) by {
            assert forall|k: int| 0 <= k < v.drop_first().len() implies (#[trigger] v.drop_first()[k]).len() <= u32::MAX by {
                assert(v.drop_first()[k] == v[k + 1]);
            }
        }
        assert(fits(w.drop_first())) by {
            assert forall|k: int| 0 <= k < w.drop_first().len() implies (#[trigger] w.drop_first()[k]).len() <= u32::MAX by {
                assert(w.drop_first()[k] == w[k + 1]);
            }
        }
        lemma_encoding_injective(v.drop_first(), w.drop_first());
        assert(v =~= seq![x] + v.drop_first());
        assert(w =~= seq![y] + w.drop_first());
    }
}

fn push_le(out: &mut Vec<u8>, x: u32)
    ensures
        final(out)@ == old(out)@ + le_bytes(x),
{
    out.push((x % 256) as u8);
    out.push(((x / 256) % 256) as u8);
    out.push(((x / 65536) % 256) as u8);
    out.push(((x / 16777216) % 256) as u8);
    proof {
        assert(out@ =~= old(out)@ + le_bytes(x));
    }
}

/// The bytes that stand for `parts`.
pub fn encode_parts(parts: &Vec<String>) -> (r: Vec<u8>)
    requires
        forall|k: int| 0 <= k < parts@.len() ==> (#[trigger] parts@[k])@.len() <= u32::MAX,
    ensures
        r@ == encode_texts(views(parts@)),
{
    let mut out: Vec<u8> = Vec::new();
    let mut k: usize = 0;
    while k < parts.len()
        invariant
            k <= parts@.len(),
            forall|j: int| 0 <= j < parts@.len() ==> (#[trigger] parts@[j])@.len() <= u32::MAX,
            out@ == encode_texts(views(parts@.subrange(0, k as int))),
        decreases parts@.len() - k,
    {
        let cs = crate::text::chars_of(parts[k].as_str());
        assert(cs@.len() <= u32::MAX) by {
            assert(parts@[k as int]@.len() <= u32::MAX);
        }
        let ghost before = out@;
        push_le(&mut out, cs.len() as u32);
        let ghost mid = out@;
        let mut m: usize = 0;
        while m < cs.len()
            invariant
                m <= cs@.len(),
                out@ == mid + chars_bytes(cs@.subrange(0, m as int)),
            decreases cs@.len() - m,
        {
            push_le(&mut out, cs[m] as u32);
            m = m + 1;
            proof {
                assert(cs@.subrange(0, m as int).drop_last() =~= cs@.subrange(0, m as int - 1));
                assert(out@ =~= mid + chars_bytes(cs@.subrange(0, m as int)));
            }
        }
        k = k + 1;
        proof {
            let pre = views(parts@.subrange(0, k as int));
            assert(pre =~= views(parts@.subrange(0, k as int - 1)).push(cs@));
            assert(cs@.subrange(0, m as int) =~= cs@);
            lemma_encode_push(views(parts@.subrange(0, k as int - 1)), cs@);
            assert(out@ =~= encode_texts(pre));
        }
    }
    proof {
        assert(parts@.subrange(0, k as int) =~= parts@);
    }
    out
}

/// The name of the directory for intermediate files of a toolchain whose
/// tools, version, target, platform and options are `parts`: the URL-safe
/// base64 of their BLAKE3 hash, derived under this library's own context
/// string. It holds no `/`.
pub fn toolchain_namespace(parts: &Vec<String>) -> (r: String)
    requires
        forall|k: int| 0 <= k < parts@.len() ==> (#[trigger] parts@[k])@.len() <= u32::MAX,
    ensures
        r@ == base64_url(blake3_derived("gearbuild toolchain namespace"@, encode_texts(views(parts@)))),
        forall|i: int| 0 <= i < r@.len() ==> r@[i] != '/',
        r@.len() == 43,
{
    let bytes = encode_parts(parts);
    let digest = derive_key("gearbuild toolchain namespace", &bytes);
    encode_url_safe(&digest)
}

} // verus!
