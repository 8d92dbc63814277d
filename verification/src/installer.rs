//! What appending a template to a `.gitignore` file writes. Entries already
//! in the file are left as they are: nothing is deduplicated.

use vstd::prelude::*;
use vstd::utf8::{encode_scalar, encode_utf8};

use crate::text::chars_of;

verus! {

/// The newline byte.
pub const NEWLINE: u8 = 10;

/// The existing file is not empty and its last byte is not a newline, so the
/// template must start on a line of its own.
pub open spec fn needs_leading_newline(existing: Seq<u8>) -> bool {
    existing.len() > 0 && existing.last() != NEWLINE
}

/// The text ends with a newline.
pub open spec fn ends_with_newline(content: Seq<char>) -> bool {
    content.len() > 0 && content.last() == '\n'
}

/// The bytes appended to a file holding `existing`: a newline if the file's
/// last line is unterminated, the UTF-8 bytes of `content`, and a newline if
/// `content` does not end with one.
pub open spec fn appended_bytes(existing: Seq<u8>, content: Seq<char>) -> Seq<u8> {
    (if needs_leading_newline(existing) {
        seq![NEWLINE]
    } else {
        Seq::empty()
    }) + encode_utf8(content) + (if ends_with_newline(content) {
        Seq::empty()
    } else {
        seq![NEWLINE]
    })
}

/// The bytes to append to a `.gitignore` file that holds `existing` (empty
/// when the file does not exist) so that it gains `content` on lines of its own.
pub fn append_bytes(existing: &[u8], content: &str) -> (r: Vec<u8>)
    ensures
        r@ == appended_bytes(existing@, content@),
{
    let mut r: Vec<u8> = Vec::new();
    if existing.len() > 0 && existing[existing.len() - 1] != NEWLINE {
        r.push(NEWLINE);
    }
    let ghost lead = r@;
    let bytes = content.as_bytes();
    let mut i: usize = 0;
    while i < bytes.len()
        invariant
            i <= bytes.len(),
            bytes@ == encode_utf8(content@),
            r@ == lead + bytes@.take(i as int),
        decreases bytes.len() - i,
    {
        r.push(bytes[i]);
        assert(bytes@.take(i + 1) =~= bytes@.take(i as int).push(bytes@[i as int]));
        i = i + 1;
    }
    assert(bytes@.take(i as int) =~= bytes@);
    let chars = chars_of(content);
    if !(chars.len() > 0 && chars[chars.len() - 1] == '\n') {
        r.push(NEWLINE);
    }
    proof {
        if needs_leading_newline(existing@) {
            assert(lead =~= seq![NEWLINE]);
        } else {
            assert(lead =~= Seq::<u8>::empty());
        }
    }
    assert(r@ =~= appended_bytes(existing@, content@));
    r
}

/// After the append the file still starts with everything it held, the
/// template's bytes follow (after a newline only where the last line was
/// unterminated), and the file ends with a newline. So a later append never
/// needs a separating newline.
pub proof fn lemma_append_shape(existing: Seq<u8>, content: Seq<char>)
    ensures
        ({
            let file = existing + appended_bytes(existing, content);
            let start = existing.len() + (if needs_leading_newline(existing) { 1int } else { 0int });
            &&& file.subrange(0, existing.len() as int) == existing
            &&& file.subrange(start, start + encode_utf8(content).len()) == encode_utf8(content)
            &&& file.len() > 0 && file.last() == NEWLINE
            &&& !needs_leading_newline(file)
        }),
{
    let file = existing + appended_bytes(existing, content);
    let start = existing.len() + (if needs_leading_newline(existing) { 1int } else { 0int });
    let bytes = encode_utf8(content);
    assert(file.subrange(0, existing.len() as int) =~= existing);
    assert(file.subrange(start, start + bytes.len()) =~= bytes);
    if !ends_with_newline(content) {
        assert(file.last() == NEWLINE);
    } else {
        assert(content =~= content.drop_last() + seq!['\n']);
        lemma_encode_concat(content.drop_last(), seq!['\n']);
        lemma_encode_newline();
    }
}

/// Whether a separating newline goes first depends on the existing file's
/// last byte alone: a non-empty file whose last byte is not a newline gets
/// a newline and then the template's bytes, whatever else the file holds;
/// an empty file, or one ending in a newline, gets the template's bytes
/// straight away.
pub proof fn lemma_leading_newline_by_last_byte(existing: Seq<u8>, content: Seq<char>)
    ensures
        existing.len() > 0 && existing[existing.len() - 1] != NEWLINE ==> {
            let out = appended_bytes(existing, content);
            &&& out[0] == NEWLINE
            &&& out.subrange(1, 1 + encode_utf8(content).len() as int) == encode_utf8(content)
        },
        existing.len() == 0 || existing[existing.len() - 1] == NEWLINE ==> appended_bytes(
            existing,
            content,
        ).subrange(0, encode_utf8(content).len() as int) == encode_utf8(content),
{
    let out = appended_bytes(existing, content);
    let bytes = encode_utf8(content);
    if existing.len() > 0 && existing[existing.len() - 1] != NEWLINE {
        assert(out.subrange(1, 1 + bytes.len() as int) =~= bytes);
    } else {
        assert(out.subrange(0, bytes.len() as int) =~= bytes);
    }
}

/// Encoding a concatenation concatenates the encodings.
proof fn lemma_encode_concat(a: Seq<char>, b: Seq<char>)
    ensures
        encode_utf8(a + b) == encode_utf8(a) + encode_utf8(b),
    decreases a.len(),
{
    if a.len() == 0 {
        assert(a + b =~= b);
        assert(encode_utf8(a) + encode_utf8(b) =~= encode_utf8(b));
    } else {
        assert((a + b).drop_first() =~= a.drop_first() + b);
        lemma_encode_concat(a.drop_first(), b);
        assert(encode_utf8(a + b) =~= encode_utf8(a) + encode_utf8(b));
    }
}

/// A newline is the single byte 10.
proof fn lemma_encode_newline()
    ensures
        encode_utf8(seq!['\n']) == seq![NEWLINE],
{
    let c: u32 = '\n' as u32;
    assert(c == 10);
    assert((c & 0x7F) as u8 == 10u8) by (bit_vector)
        requires
            c == 10,
    ;
    assert(encode_scalar(c) =~= seq![NEWLINE]);
    assert(seq!['\n'].drop_first() =~= Seq::<char>::empty());
    assert(encode_utf8(seq!['\n']) =~= encode_scalar(c) + encode_utf8(Seq::<char>::empty()));
}

} // verus!
