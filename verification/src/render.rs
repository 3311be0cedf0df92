//! Body rendering.  The renderer is deliberately conservative: body text is
//! HTML-escaped byte for byte (`&`, `<`, `>`, `"`, `'`), so that embedded
//! markup and script blocks are neutralized rather than passed through to
//! the runtime consumer.  The excerpt is the explicit front-matter summary
//! when one is given, otherwise the leading bytes of the raw body, escaped
//! the same way; its length comes from the site configuration.

use vstd::prelude::*;
use vstd::string::*;
use crate::text;

verus! {

/// The escaped expansion of one body byte.
pub open spec fn esc_byte(b: u8) -> Seq<u8> {
    if b == 38 {  // &
        "&amp;".spec_bytes()
    } else if b == 60 {  // <
        "&lt;".spec_bytes()
    } else if b == 62 {  // >
        "&gt;".spec_bytes()
    } else if b == 34 {  // "
        "&quot;".spec_bytes()
    } else if b == 39 {  // '
        "&#39;".spec_bytes()
    } else {
        seq![b]
    }
}

/// The whole text escaped, byte for byte, in order.
pub open spec fn html_escaped(s: Seq<u8>) -> Seq<u8>
    decreases s.len(),
{
    if s.len() == 0 {
        Seq::empty()
    } else {
        html_escaped(s.drop_last()) + esc_byte(s.last())
    }
}

/// Escape a body for the runtime consumer.
pub fn escape_html(s: &[u8]) -> (r: Vec<u8>)
    ensures
        r@ == html_escaped(s@),
{
    let mut out: Vec<u8> = Vec::new();
    proof {
        assert(out@ =~= html_escaped(s@.take(0)));
    }
    let mut i: usize = 0;
    while i < s.len()
        invariant
            0 <= i <= s@.len(),
            out@ == html_escaped(s@.take(i as int)),
        decreases s@.len() - i,
    {
        let b = s[i];
        proof {
            assert(s@.take(i + 1).drop_last() =~= s@.take(i as int));
            assert(s@.take(i + 1).last() == s@[i as int]);
        }
        if b == 38 {
            text::push_bytes(&mut out, "&amp;".as_bytes());
        } else if b == 60 {
            text::push_bytes(&mut out, "&lt;".as_bytes());
        } else if b == 62 {
            text::push_bytes(&mut out, "&gt;".as_bytes());
        } else if b == 34 {
            text::push_bytes(&mut out, "&quot;".as_bytes());
        } else if b == 39 {
            text::push_bytes(&mut out, "&#39;".as_bytes());
        } else {
            out.push(b);
            proof {
                assert(out@ =~= html_escaped(s@.take(i as int)) + esc_byte(s@[i as int]));
            }
        }
        i = i + 1;
    }
    proof {
        assert(s@.take(s@.len() as int) =~= s@);
    }
    out
}

/// The raw text an excerpt is derived from: the explicit summary when one
/// was supplied, otherwise the first `n` bytes of the body.
pub open spec fn excerpt_source(summary: Option<Seq<u8>>, body: Seq<u8>, n: int) -> Seq<u8> {
    match summary {
        Some(s) => s,
        None => if body.len() <= n {
            body
        } else {
            body.take(n)
        },
    }
}

/// The derived excerpt: the excerpt source, escaped.
pub open spec fn spec_excerpt(summary: Option<Seq<u8>>, body: Seq<u8>, n: int) -> Seq<u8> {
    html_escaped(excerpt_source(summary, body, n))
}

/// Derive a post's excerpt.
pub fn make_excerpt(summary: &Option<Vec<u8>>, body: &[u8], n: usize) -> (r: Vec<u8>)
    ensures
        r@ == spec_excerpt(crate::front_matter::opt_view(*summary), body@, n as int),
{
    match summary {
        Some(s) => escape_html(s.as_slice()),
        None => {
            if body.len() <= n {
                proof {
                    assert(excerpt_source(None, body@, n as int) == body@);
                }
                escape_html(body)
            } else {
                let head = text::copy_range(body, 0, n);
                proof {
                    assert(head@ =~= body@.take(n as int));
                }
                escape_html(head.as_slice())
            }
        },
    }
}

} // verus!
