//! The metadata block that may lead a document: a first line `---`, and
//! everything up to and including the next line that is `---` and no more.

use vstd::prelude::*;
use vstd::slice::*;
use vstd::string::*;
use vstd::utf8::*;

verus! {

/// True when the marker line, `---` and a line feed, stands at byte `i` of `bytes`.
pub open spec fn marker_at(bytes: Seq<u8>, i: int) -> bool {
    &&& 0 <= i
    &&& i + 4 <= bytes.len()
    &&& bytes[i] == 0x2d
    &&& bytes[i + 1] == 0x2d
    &&& bytes[i + 2] == 0x2d
    &&& bytes[i + 3] == 0x0a
}

/// True when a marker line starts at byte `i` of `bytes`: the marker stands
/// there, and what stands before it, if anything, ends in a line feed.
pub open spec fn marker_line_at(bytes: Seq<u8>, i: int) -> bool {
    &&& marker_at(bytes, i)
    &&& (i == 0 || bytes[i - 1] == 0x0a)
}

/// True when the first line of `bytes` is a marker line and `j` is where the
/// next marker line starts.
pub open spec fn closes_at(bytes: Seq<u8>, j: int) -> bool {
    &&& marker_line_at(bytes, 0)
    &&& 4 <= j
    &&& marker_line_at(bytes, j)
    &&& forall|k: int| 4 <= k < j ==> !marker_line_at(bytes, k)
}

/// Length in bytes of the metadata block of `bytes`, closing marker included,
/// or `None` where `bytes` has no such block.
pub open spec fn frontmatter_end(bytes: Seq<u8>) -> Option<int> {
    if exists|j: int| closes_at(bytes, j) {
        Some((choose|j: int| closes_at(bytes, j)) + 4)
    } else {
        None
    }
}

/// The metadata block of `text`, closing marker included, if it has one.
pub open spec fn metadata_of(text: Seq<char>) -> Option<Seq<char>> {
    let bytes = encode_utf8(text);
    match frontmatter_end(bytes) {
        Some(end) => Some(decode_utf8(bytes.subrange(0, end))),
        None => None,
    }
}

/// What follows the metadata block of `text`; the whole of it where it has none.
pub open spec fn body_of(text: Seq<char>) -> Seq<char> {
    let bytes = encode_utf8(text);
    match frontmatter_end(bytes) {
        Some(end) => decode_utf8(bytes.subrange(end, bytes.len() as int)),
        None => text,
    }
}

/// Metadata block and body, put together again.
pub open spec fn rejoined(metadata: Option<Seq<char>>, body: Seq<char>) -> Seq<char> {
    match metadata {
        Some(m) => m + body,
        None => body,
    }
}

/// True when `text` opens with the marker line.
pub open spec fn opens_with_marker(text: Seq<char>) -> bool {
    &&& text.len() >= 4
    &&& text[0] == '-'
    &&& text[1] == '-'
    &&& text[2] == '-'
    &&& text[3] == '\n'
}

/// The closing marker is found at one place only.
pub proof fn lemma_closes_at_unique(bytes: Seq<u8>, i: int, j: int)
    requires
        closes_at(bytes, i),
        closes_at(bytes, j),
    ensures
        i == j,
{
}

/// The position behind a one-byte character is a character boundary.
proof fn lemma_boundary_behind_ascii(bytes: Seq<u8>, i: int)
    requires
        valid_utf8(bytes),
        0 <= i < bytes.len(),
        is_char_boundary(bytes, i),
        is_leading_byte_width_1(bytes[i]),
    ensures
        is_char_boundary(bytes, i + 1),
    decreases bytes.len(),
{
    reveal_with_fuel(is_char_boundary, 2);
    if i > 0 {
        let rest = pop_first_scalar(bytes);
        let width = length_of_first_scalar(bytes);
        assert(rest[i - width] == bytes[i]);
        lemma_boundary_behind_ascii(rest, i - width);
    }
}

/// A metadata block ends on a character boundary.
pub proof fn lemma_block_ends_on_boundary(text: Seq<char>)
    ensures
        frontmatter_end(encode_utf8(text)) matches Some(end) ==> 8 <= end <= encode_utf8(text).len()
            && is_char_boundary(encode_utf8(text), end),
{
    let bytes = encode_utf8(text);
    if frontmatter_end(bytes) is Some {
        let end = frontmatter_end(bytes)->0;
        assert(closes_at(bytes, end - 4));
        encode_utf8_valid_utf8(text);
        is_char_boundary_iff_not_is_continuation_byte(bytes, end - 1);
        lemma_boundary_behind_ascii(bytes, end - 1);
    }
}

/// Metadata block and body, one behind the other, give the document back.
pub proof fn lemma_split_rejoins(text: Seq<char>)
    ensures
        rejoined(metadata_of(text), body_of(text)) == text,
{
    let bytes = encode_utf8(text);
    if frontmatter_end(bytes) is Some {
        let end = frontmatter_end(bytes)->0;
        lemma_block_ends_on_boundary(text);
        encode_utf8_valid_utf8(text);
        decode_utf8_split(bytes, end);
        encode_utf8_decode_utf8(text);
    }
}

/// The first byte of an encoded text, where it is below 0x80, is the text's
/// first character, and the bytes behind it encode the characters behind that.
proof fn lemma_one_byte_head(text: Seq<char>)
    requires
        encode_utf8(text).len() > 0,
        encode_utf8(text)[0] < 0x80,
    ensures
        text.len() > 0,
        text[0] as u32 == encode_utf8(text)[0] as u32,
        encode_utf8(text).subrange(1, encode_utf8(text).len() as int) == encode_utf8(
            text.drop_first(),
        ),
{
    let bytes = encode_utf8(text);
    let b = bytes[0];
    encode_utf8_first_scalar(text);
    assert((b & 0x7f) as u32 == b as u32) by (bit_vector)
        requires
            b < 0x80,
    ;
    assert(encode_scalar(text[0] as u32).len() == 1);
    assert(bytes.subrange(1, bytes.len() as int) =~= encode_utf8(text.drop_first()));
}

/// A text whose bytes open with the marker opens with the marker's characters.
pub proof fn lemma_marker_bytes_are_chars(text: Seq<char>)
    requires
        marker_at(encode_utf8(text), 0),
    ensures
        opens_with_marker(text),
{
    let t0 = text;
    lemma_one_byte_head(t0);
    let t1 = t0.drop_first();
    assert(encode_utf8(t1)[0] == encode_utf8(t0)[1]);
    lemma_one_byte_head(t1);
    let t2 = t1.drop_first();
    assert(encode_utf8(t2)[0] == encode_utf8(t1)[1]);
    assert(encode_utf8(t1)[1] == encode_utf8(t0)[2]);
    lemma_one_byte_head(t2);
    let t3 = t2.drop_first();
    assert(encode_utf8(t3)[0] == encode_utf8(t2)[1]);
    assert(encode_utf8(t2)[1] == encode_utf8(t1)[2]);
    assert(encode_utf8(t1)[2] == encode_utf8(t0)[3]);
    lemma_one_byte_head(t3);
    assert(text[1] == t1[0]);
    assert(text[2] == t2[0]);
    assert(text[3] == t3[0]);
    char_u32_cast('-', 0x2d);
    char_u32_cast('\n', 0x0a);
    char_u32_cast(text[0], 0x2d);
    char_u32_cast(text[1], 0x2d);
    char_u32_cast(text[2], 0x2d);
    char_u32_cast(text[3], 0x0a);
}

/// A document that does not open with the marker has no metadata block: it is
/// all body.
pub proof fn lemma_no_opening_marker(text: Seq<char>)
    requires
        !opens_with_marker(text),
    ensures
        metadata_of(text) is None,
        body_of(text) == text,
{
    if marker_at(encode_utf8(text), 0) {
        lemma_marker_bytes_are_chars(text);
    }
}

/// A document with no marker line behind its first line has no metadata block
/// either, wherever else the marker's bytes may stand in it.
pub proof fn lemma_unterminated_block(text: Seq<char>)
    requires
        forall|j: int| 4 <= j ==> !marker_line_at(encode_utf8(text), j),
    ensures
        metadata_of(text) is None,
        body_of(text) == text,
{
}

/// Tests for a marker line that starts at byte `i`.
fn has_marker_line(bytes: &[u8], i: usize) -> (found: bool)
    ensures
        found == marker_line_at(bytes@, i as int),
{
    let n: usize = bytes.len();
    n >= 4 && i <= n - 4 && bytes[i] == 0x2d && bytes[i + 1] == 0x2d && bytes[i + 2] == 0x2d
        && bytes[i + 3] == 0x0a && (i == 0 || bytes[i - 1] == 0x0a)
}

/// Locates the metadata block of `text` as a byte range, start first.
pub fn find_frontmatter_block(text: &str) -> (res: Option<(usize, usize)>)
    ensures
        match res {
            Some((start, end)) => start == 0 && frontmatter_end(text.spec_bytes()) == Some(
                end as int,
            ),
            None => frontmatter_end(text.spec_bytes()) is None,
        },
        !opens_with_marker(text@) ==> res is None,
{
    let bytes = text.as_bytes();
    let n: usize = bytes.len();
    if !has_marker_line(bytes, 0) {
        return None;
    }
    proof {
        lemma_marker_bytes_are_chars(text@);
    }
    let mut j: usize = 4;
    while j <= n - 4
        invariant
            opens_with_marker(text@),
            bytes@ == text.spec_bytes(),
            n == bytes@.len(),
            n >= 4,
            4 <= j,
            marker_line_at(bytes@, 0),
            forall|k: int| 4 <= k < j ==> !marker_line_at(bytes@, k),
        decreases n - j,
    {
        if has_marker_line(bytes, j) {
            proof {
                assert(closes_at(bytes@, j as int));
                lemma_closes_at_unique(bytes@, j as int, choose|k: int| closes_at(bytes@, k));
            }
            return Some((0, j + 4));
        }
        j += 1;
    }
    None
}

/// Splits `text` into its metadata block, if it has one, and its body.
pub fn split_frontmatter_and_content(text: &str) -> (res: (Option<&str>, &str))
    ensures
        res.0.deep_view() == metadata_of(text@),
        res.1@ == body_of(text@),
        rejoined(res.0.deep_view(), res.1@) == text@,
        !opens_with_marker(text@) ==> res.0 is None && res.1@ == text@,
        match frontmatter_end(text.spec_bytes()) {
            Some(end) => {
                &&& res.0 matches Some(metadata)
                &&& metadata.spec_bytes() == text.spec_bytes().subrange(0, end)
                &&& res.1.spec_bytes() == text.spec_bytes().subrange(
                    end,
                    text.spec_bytes().len() as int,
                )
            },
            None => res.0 is None,
        },
{
    match find_frontmatter_block(text) {
        Some((_, end)) => {
            proof {
                lemma_block_ends_on_boundary(text@);
            }
            let (metadata, body) = text.split_at(end);
            proof {
                encode_utf8_decode_utf8(metadata@);
                encode_utf8_decode_utf8(body@);
                lemma_split_rejoins(text@);
            }
            (Some(metadata), body)
        },
        None => (None, text),
    }
}

} // verus!
