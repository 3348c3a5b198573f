//! The text of an image file: where it begins, and which stylesheet it may
//! pull in.

use vstd::prelude::*;
use vstd::slice::slice_subrange;

verus! {

/// The data begins with the byte order mark of UTF-8.
pub open spec fn has_bom(data: Seq<u8>) -> bool {
    data.len() >= 3 && data[0] == 0xEF && data[1] == 0xBB && data[2] == 0xBF
}

/// The data without the byte order mark that it may begin with.
pub open spec fn without_bom(data: Seq<u8>) -> Seq<u8> {
    if has_bom(data) {
        data.skip(3)
    } else {
        data
    }
}

/// The bytes of `text/css`, the only type of stylesheet that is followed.
pub open spec fn css_type() -> Seq<u8> {
    seq![0x74u8, 0x65u8, 0x78u8, 0x74u8, 0x2fu8, 0x63u8, 0x73u8, 0x73u8]
}

/// The reference holds two dots in a row, by which a path can climb out of
/// the directory of the image.
pub open spec fn climbs(href: Seq<u8>) -> bool {
    exists|i: int| 0 <= i && i + 1 < href.len() && #[trigger] href[i] == 0x2e && href[i + 1] == 0x2e
}

/// The reference holds a zero byte, at which a file name would end early.
pub open spec fn has_nul(href: Seq<u8>) -> bool {
    exists|i: int| 0 <= i < href.len() && #[trigger] href[i] == 0
}

/// A stylesheet is followed where its type is `text/css` and its reference is
/// there, does not climb and holds no zero byte.
pub open spec fn is_followed(kind: Option<Seq<u8>>, href: Option<Seq<u8>>) -> bool {
    &&& kind == Some(css_type())
    &&& href is Some
    &&& !climbs(href.unwrap())
    &&& !has_nul(href.unwrap())
}

/// What a caller's optional bytes hold.
pub open spec fn bytes_of(data: Option<&[u8]>) -> Option<Seq<u8>> {
    match data {
        Some(bytes) => Some(bytes@),
        None => None,
    }
}

/// Drops the byte order mark from the start of the data, if there is one.
pub fn strip_bom(data: &[u8]) -> (rest: &[u8])
    ensures
        rest@ == without_bom(data@),
{
    if data.len() >= 3 && data[0] == 0xEF && data[1] == 0xBB && data[2] == 0xBF {
        let rest = slice_subrange(data, 3, data.len());
        rest
    } else {
        data
    }
}

/// Tells whether the bytes spell `text/css`.
pub fn is_css_type(kind: &[u8]) -> (css: bool)
    ensures
        css == (kind@ == css_type()),
{
    let css = kind.len() == 8 && kind[0] == 0x74 && kind[1] == 0x65 && kind[2] == 0x78 && kind[3]
        == 0x74 && kind[4] == 0x2f && kind[5] == 0x63 && kind[6] == 0x73 && kind[7] == 0x73;
    proof {
        if css {
            assert(kind@ =~= css_type());
        } else if kind@.len() == 8 {
            assert(css_type()[0] == 0x74 && css_type()[1] == 0x65 && css_type()[2] == 0x78
                && css_type()[3] == 0x74 && css_type()[4] == 0x2f && css_type()[5] == 0x63
                && css_type()[6] == 0x73 && css_type()[7] == 0x73);
        }
    }
    css
}

/// Tells whether a reference stays inside the directory it is read from: it
/// neither climbs nor holds a zero byte.
pub fn is_plain_href(href: &[u8]) -> (plain: bool)
    ensures
        plain == (!climbs(href@) && !has_nul(href@)),
{
    let mut i: usize = 0;
    while i < href.len()
        invariant
            i <= href.len(),
            forall|j: int| 0 <= j < i ==> #[trigger] href@[j] != 0,
            forall|j: int|
                0 <= j < i && j + 1 < href@.len() ==> !(#[trigger] href@[j] == 0x2e && href@[j + 1]
                    == 0x2e),
        decreases href.len() - i,
    {
        if href[i] == 0 {
            return false;
        }
        if href[i] == 0x2e && i + 1 < href.len() && href[i + 1] == 0x2e {
            return false;
        }
        i += 1;
    }
    true
}

/// Tells whether the stylesheet that an image names is followed, from the
/// `type` and the `href` that the image gives for it.
pub fn href_is_followed(kind: Option<&[u8]>, href: Option<&[u8]>) -> (followed: bool)
    ensures
        followed == is_followed(bytes_of(kind), bytes_of(href)),
{
    match kind {
        Some(kind) => {
            if !is_css_type(kind) {
                return false;
            }
        },
        None => {
            return false;
        },
    }
    match href {
        Some(href) => is_plain_href(href),
        None => false,
    }
}

} // verus!
