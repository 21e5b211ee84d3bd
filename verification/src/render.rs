//! Rendering a matching line as output bytes: the optional line-number
//! prefix, the text before the match, the emphasized match, the text after.

use vstd::prelude::*;
use crate::scanner::{MatchedLine, MatchedLineView};
use colored::Colorize;

verus! {

/// The decimal digits of `n`, most significant first.
pub open spec fn dec_of(n: nat) -> Seq<u8>
    decreases n,
{
    if n < 10 {
        seq![(48 + n) as u8]
    } else {
        dec_of(n / 10) + seq![(48 + n % 10) as u8]
    }
}

/// The line-number prefix of an output line: the decimal number and one
/// space, or nothing when numbering is off.
pub open spec fn num_prefix(number: Option<usize>) -> Seq<u8> {
    match number {
        Some(k) => dec_of(k as nat) + seq![32u8],
        None => Seq::<u8>::empty(),
    }
}

/// The sequence holds no escape byte.
pub open spec fn esc_free(s: Seq<u8>) -> bool {
    forall|i: int| 0 <= i < s.len() ==> s[i] != 27u8
}

/// The decimal digits of `n`, most significant first.
fn dec_digits(n: usize) -> (r: Vec<u8>)
    ensures
        r@ == dec_of(n as nat),
    decreases n,
{
    if n < 10 {
        let mut r: Vec<u8> = Vec::new();
        r.push(48 + n as u8);
        assert(r@ =~= dec_of(n as nat));
        r
    } else {
        let mut r = dec_digits(n / 10);
        r.push(48 + (n % 10) as u8);
        assert(r@ =~= dec_of(n as nat));
        r
    }
}

/// Append a copy of every byte of `src` to `dst`.
fn push_all(dst: &mut Vec<u8>, src: &Vec<u8>)
    ensures
        final(dst)@ == old(dst)@ + src@,
{
    let mut k: usize = 0;
    while k < src.len()
        invariant
            k <= src@.len(),
            dst@ == old(dst)@ + src@.subrange(0, k as int),
        decreases src@.len() - k,
    {
        dst.push(src[k]);
        assert(old(dst)@ + src@.subrange(0, k + 1 as int) =~= (old(dst)@ + src@.subrange(
            0,
            k as int,
        )).push(src@[k as int]));
        k += 1;
    }
    assert(dst@ =~= old(dst)@ + src@);
}

/// Relies on colored::Colorize (bright_red, then bold): the styled form of a
/// text holding no escape byte is the text itself between one style prefix
/// and one style suffix, both of which are empty when coloring is off. Bytes
/// that are not valid UTF-8 are returned unchanged.
#[verifier::external_body]
fn emphasize(s: &Vec<u8>) -> (r: Vec<u8>)
    ensures
        esc_free(s@) ==> exists|pre: Seq<u8>, post: Seq<u8>| r@ == pre + s@ + post,
{
    match String::from_utf8(s.clone()) {
        Ok(t) => t.bright_red().bold().to_string().into_bytes(),
        Err(_) => s.clone(),
    }
}

/// Render a matching line: the optional number prefix, the text before the
/// match, the emphasized match, and the text after it. Whatever the emphasis
/// decoration does, the segments around it are reproduced exactly; when the
/// matched text holds no escape byte it too stands unchanged inside the
/// decoration.
pub fn render(m: &MatchedLine) -> (r: Vec<u8>)
    ensures
        exists|styled: Seq<u8>| r@ == num_prefix(m@.number) + m@.before + styled + m@.after,
        esc_free(m@.matched) ==> exists|pre: Seq<u8>, post: Seq<u8>| r@ == num_prefix(m@.number)
            + m@.before + pre + m@.matched + post + m@.after,
{
    let mut r: Vec<u8> = Vec::new();
    match m.number {
        Some(k) => {
            let digits = dec_digits(k);
            push_all(&mut r, &digits);
            r.push(32u8);
            assert(r@ =~= num_prefix(m@.number));
        },
        None => {
            assert(r@ =~= num_prefix(m@.number));
        },
    }
    push_all(&mut r, &m.before);
    let styled = emphasize(&m.matched);
    push_all(&mut r, &styled);
    push_all(&mut r, &m.after);
    proof {
        let s = styled@;
        assert(r@ == num_prefix(m@.number) + m@.before + s + m@.after);
        if esc_free(m@.matched) {
            let (pre, post) = choose|pre: Seq<u8>, post: Seq<u8>| s == pre + m@.matched + post;
            assert(r@ == num_prefix(m@.number) + m@.before + pre + m@.matched + post
                + m@.after);
        }
    }
    r
}

} // verus!
