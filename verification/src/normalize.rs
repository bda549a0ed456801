use crate::encoding::{
    lemma_ascii_is_boundary, lemma_ascii_terminators, lemma_boundary_after_ascii,
    lemma_encode_concat, lemma_encode_one, lemma_scalar_bytes, lemma_scalar_in_bytes,
    lemma_terminator_bytes, offset_of,
};
use vstd::prelude::*;
use vstd::string::*;
use vstd::utf8::*;

verus! {

/// The carriage-return byte.
pub const CR: u8 = 0x0D;

/// The line-feed byte.
pub const LF: u8 = 0x0A;

/// The line terminator that is native to a host: the pair `\r\n` or the
/// single character `\n`.
#[derive(Debug, Clone, Copy, PartialEq, Eq, Structural)]
pub enum Newline {
    /// The host ends lines with the pair `\r\n`.
    CrLf,
    /// The host ends lines with `\n` alone.
    Lf,
}

/// What a text is a sequence of: characters, or the bytes of their UTF-8
/// encoding. Either way two of the units are the carriage return and the
/// line feed, and the rules of normalization read the same.
pub trait TextUnit: Sized {
    /// The carriage return.
    spec fn cr() -> Self;

    /// The line feed.
    spec fn lf() -> Self;

    /// The two are different units.
    proof fn lemma_cr_is_not_lf()
        ensures
            Self::cr() != Self::lf(),
    ;
}

impl TextUnit for u8 {
    open spec fn cr() -> u8 {
        CR
    }

    open spec fn lf() -> u8 {
        LF
    }

    proof fn lemma_cr_is_not_lf() {
    }
}

impl TextUnit for char {
    open spec fn cr() -> char {
        '\r'
    }

    open spec fn lf() -> char {
        '\n'
    }

    proof fn lemma_cr_is_not_lf() {
    }
}

/// A terminator that is foreign to `host` starts at offset `i` of `text`.
///
/// Where the pair is native, the foreign terminator is a lone `\n`: one
/// that does not follow a `\r`. Where `\n` alone is native, it is the pair
/// `\r\n`.
pub open spec fn foreign_at<T: TextUnit>(text: Seq<T>, i: int, host: Newline) -> bool {
    match host {
        Newline::CrLf => 0 <= i < text.len() && text[i] == T::lf() && !(i > 0 && text[i - 1]
            == T::cr()),
        Newline::Lf => 0 <= i < text.len() - 1 && text[i] == T::cr() && text[i + 1] == T::lf(),
    }
}

/// `text` holds a terminator that is foreign to `host`.
pub open spec fn needs_rewrite<T: TextUnit>(text: Seq<T>, host: Newline) -> bool {
    exists|i: int| foreign_at(text, i, host)
}

/// `text` ends its lines in the convention of `host` only.
pub open spec fn is_native<T: TextUnit>(text: Seq<T>, host: Newline) -> bool {
    !needs_rewrite(text, host)
}

/// What the unit at offset `i` of `text` becomes.
///
/// Where the pair is native, a lone `\n` becomes `\r\n`. Where `\n` alone
/// is native, the `\r` of a pair `\r\n` is dropped. Every other unit stays
/// as it is.
pub open spec fn rewritten_at<T: TextUnit>(text: Seq<T>, i: int, host: Newline) -> Seq<T> {
    if foreign_at(text, i, host) {
        match host {
            Newline::CrLf => seq![T::cr(), T::lf()],
            Newline::Lf => Seq::empty(),
        }
    } else {
        seq![text[i]]
    }
}

/// The first `n` units of `text`, rewritten for `host`.
pub open spec fn normalized_prefix<T: TextUnit>(text: Seq<T>, n: int, host: Newline) -> Seq<T>
    decreases n,
{
    if n <= 0 {
        Seq::empty()
    } else {
        normalized_prefix(text, n - 1, host) + rewritten_at(text, n - 1, host)
    }
}

/// `text` with its line terminators rewritten to the convention of `host`.
pub open spec fn normalized<T: TextUnit>(text: Seq<T>, host: Newline) -> Seq<T> {
    normalized_prefix(text, text.len() as int, host)
}

/// `\r\r\n` starts at offset `i` of `text`.
pub open spec fn doubled_cr_at<T: TextUnit>(text: Seq<T>, i: int) -> bool {
    0 <= i < text.len() - 2 && text[i] == T::cr() && text[i + 1] == T::cr() && text[i + 2]
        == T::lf()
}

/// `text` holds `\r\r\n` somewhere. Where `\n` alone is native, dropping the
/// `\r` of that pair leaves a new pair behind.
pub open spec fn has_doubled_cr<T: TextUnit>(text: Seq<T>) -> bool {
    exists|i: int| doubled_cr_at(text, i)
}

/// A stretch of text without foreign terminators is taken over as it is.
pub proof fn lemma_gap_is_copied<T: TextUnit>(text: Seq<T>, lo: int, hi: int, host: Newline)
    requires
        0 <= lo <= hi <= text.len(),
        forall|j: int| lo <= j < hi ==> !foreign_at(text, j, host),
    ensures
        normalized_prefix(text, hi, host) == normalized_prefix(text, lo, host) + text.subrange(
            lo,
            hi,
        ),
    decreases hi - lo,
{
    if lo == hi {
        assert(normalized_prefix(text, lo, host) + text.subrange(lo, hi) =~= normalized_prefix(
            text,
            lo,
            host,
        ));
    } else {
        lemma_gap_is_copied(text, lo, hi - 1, host);
        assert(!foreign_at(text, hi - 1, host));
        assert(text.subrange(lo, hi) =~= text.subrange(lo, hi - 1) + seq![text[hi - 1]]);
        assert(normalized_prefix(text, hi, host) =~= normalized_prefix(text, lo, host)
            + text.subrange(lo, hi));
    }
}

/// Rewriting changes the length of a prefix by one unit for each foreign
/// terminator in it: where the pair is native the text grows, where `\n`
/// alone is native it shrinks.
pub proof fn lemma_rewrite_changes_length<T: TextUnit>(text: Seq<T>, n: int, host: Newline)
    requires
        0 <= n <= text.len(),
    ensures
        host == Newline::CrLf ==> normalized_prefix(text, n, host).len() >= n,
        host == Newline::Lf ==> normalized_prefix(text, n, host).len() <= n,
        (exists|j: int| 0 <= j < n && foreign_at(text, j, host)) ==> normalized_prefix(
            text,
            n,
            host,
        ).len() != n,
    decreases n,
{
    if n > 0 {
        lemma_rewrite_changes_length(text, n - 1, host);
        if foreign_at(text, n - 1, host) {
        } else if exists|j: int| 0 <= j < n && foreign_at(text, j, host) {
            let j = choose|j: int| 0 <= j < n && foreign_at(text, j, host);
            assert(0 <= j < n - 1 && foreign_at(text, j, host));
        }
    }
}

/// A text is its own normal form exactly when it is native.
pub proof fn lemma_native_text_is_fixed<T: TextUnit>(text: Seq<T>, host: Newline)
    ensures
        is_native(text, host) <==> normalized(text, host) == text,
{
    if is_native(text, host) {
        lemma_gap_is_copied(text, 0, text.len() as int, host);
        assert(normalized_prefix(text, 0, host) + text.subrange(0, text.len() as int) =~= text);
    } else {
        let j = choose|j: int| foreign_at(text, j, host);
        assert(0 <= j < text.len() && foreign_at(text, j, host));
        lemma_rewrite_changes_length(text, text.len() as int, host);
    }
}

/// Where the pair is native, the rewritten prefix ends with the unit that
/// the prefix ends with, and none of its `\n` is a lone one.
proof fn lemma_pair_prefix_is_native<T: TextUnit>(text: Seq<T>, n: int)
    requires
        0 <= n <= text.len(),
    ensures
        is_native(normalized_prefix(text, n, Newline::CrLf), Newline::CrLf),
        n > 0 ==> normalized_prefix(text, n, Newline::CrLf).len() > 0 && normalized_prefix(
            text,
            n,
            Newline::CrLf,
        ).last() == text[n - 1],
    decreases n,
{
    let host = Newline::CrLf;
    T::lemma_cr_is_not_lf();
    if n > 0 {
        lemma_pair_prefix_is_native(text, n - 1);
        let before = normalized_prefix(text, n - 1, host);
        let now = normalized_prefix(text, n, host);
        assert(now == before + rewritten_at(text, n - 1, host));
        assert forall|k: int| !foreign_at(now, k, host) by {
            if 0 <= k < before.len() {
                assert(!foreign_at(before, k, host));
                assert(now[k] == before[k]);
                if k > 0 {
                    assert(now[k - 1] == before[k - 1]);
                }
            }
        }
    }
}

/// Where `\n` alone is native and the text holds no `\r\r\n`, the rewritten
/// prefix holds no pair, and it ends with a `\r` only where the prefix does
/// and no `\n` comes next.
proof fn lemma_single_prefix_is_native<T: TextUnit>(text: Seq<T>, n: int)
    requires
        0 <= n <= text.len(),
        !has_doubled_cr(text),
    ensures
        is_native(normalized_prefix(text, n, Newline::Lf), Newline::Lf),
        ({
            let now = normalized_prefix(text, n, Newline::Lf);
            now.len() > 0 && now.last() == T::cr() ==> n > 0 && text[n - 1] == T::cr() && !(n
                < text.len() && text[n] == T::lf())
        }),
    decreases n,
{
    let host = Newline::Lf;
    T::lemma_cr_is_not_lf();
    if n > 0 {
        lemma_single_prefix_is_native(text, n - 1);
        let before = normalized_prefix(text, n - 1, host);
        let now = normalized_prefix(text, n, host);
        assert(now == before + rewritten_at(text, n - 1, host));
        if foreign_at(text, n - 1, host) {
            assert(now =~= before);
            if before.len() > 0 && before.last() == T::cr() {
                assert(doubled_cr_at(text, n - 2));
            }
        } else {
            assert(now =~= before.push(text[n - 1]));
            assert forall|k: int| !foreign_at(now, k, host) by {
                if 0 <= k < before.len() - 1 {
                    assert(!foreign_at(before, k, host));
                    assert(now[k] == before[k]);
                    assert(now[k + 1] == before[k + 1]);
                }
            }
        }
    }
}

/// Normalized text is native, so that normalizing it a second time changes
/// nothing. Where `\n` alone is native this holds of every text without
/// `\r\r\n`; where the pair is native it holds of every text.
pub proof fn lemma_normalize_idempotent<T: TextUnit>(text: Seq<T>, host: Newline)
    requires
        host == Newline::Lf ==> !has_doubled_cr(text),
    ensures
        is_native(normalized(text, host), host),
        normalized(normalized(text, host), host) == normalized(text, host),
{
    match host {
        Newline::CrLf => lemma_pair_prefix_is_native(text, text.len() as int),
        Newline::Lf => lemma_single_prefix_is_native(text, text.len() as int),
    }
    lemma_native_text_is_fixed(normalized(text, host), host);
}

/// A longer prefix is rewritten to a text that begins with the rewriting of
/// a shorter one.
proof fn lemma_prefix_extends<T: TextUnit>(text: Seq<T>, n: int, m: int, host: Newline)
    requires
        0 <= n <= m <= text.len(),
    ensures
        normalized_prefix(text, n, host).is_prefix_of(normalized_prefix(text, m, host)),
    decreases m - n,
{
    if n < m {
        lemma_prefix_extends(text, n, m - 1, host);
    }
}

/// Where `\n` alone is native, a text that holds `\r\r\n` is not settled by
/// one pass: normalizing the result once more changes it again. These are
/// the texts that [`lemma_normalize_idempotent`] leaves out.
pub proof fn lemma_doubled_cr_needs_a_second_pass<T: TextUnit>(text: Seq<T>)
    requires
        has_doubled_cr(text),
    ensures
        needs_rewrite(normalized(text, Newline::Lf), Newline::Lf),
        normalized(normalized(text, Newline::Lf), Newline::Lf) != normalized(text, Newline::Lf),
{
    let host = Newline::Lf;
    T::lemma_cr_is_not_lf();
    let i = choose|i: int| doubled_cr_at(text, i);
    let once = normalized(text, host);
    let before = normalized_prefix(text, i, host);
    let through = normalized_prefix(text, i + 3, host);
    assert(!foreign_at(text, i, host));
    assert(foreign_at(text, i + 1, host));
    assert(!foreign_at(text, i + 2, host));
    assert(normalized_prefix(text, i + 1, host) =~= before.push(T::cr()));
    assert(normalized_prefix(text, i + 2, host) =~= before.push(T::cr()));
    assert(through =~= before.push(T::cr()).push(T::lf()));
    lemma_prefix_extends(text, i + 3, text.len() as int, host);
    let p = before.len() as int;
    assert(once[p] == through[p] && once[p + 1] == through[p + 1]);
    assert(foreign_at(once, p, host));
    lemma_native_text_is_fixed(once, host);
}

/// A foreign terminator starts at a character exactly when one starts at the
/// byte where the encoding of that character starts.
proof fn lemma_foreign_corresponds(text: Seq<char>, k: int, host: Newline)
    requires
        0 <= k < text.len(),
        text[k] as u32 <= 0x7f,
    ensures
        foreign_at(text, k, host) <==> foreign_at(encode_utf8(text), offset_of(text, k), host),
{
    let bytes = encode_utf8(text);
    let p = offset_of(text, k);
    lemma_scalar_in_bytes(text, k);
    lemma_scalar_bytes(text[k]);
    lemma_ascii_terminators(text[k]);
    assert(bytes[p] == bytes.subrange(p, p + 1)[0]);
    match host {
        Newline::CrLf => {
            if k > 0 {
                let q = offset_of(text, k - 1);
                let e = encode_scalar(text[k - 1] as u32);
                lemma_scalar_in_bytes(text, k - 1);
                lemma_scalar_bytes(text[k - 1]);
                if text[k - 1] as u32 <= 0x7f {
                    lemma_ascii_terminators(text[k - 1]);
                }
                assert(bytes[p - 1] == bytes.subrange(q, q + e.len())[e.len() - 1]);
            } else {
                assert(text.take(0) =~= Seq::<char>::empty());
            }
        },
        Newline::Lf => {
            if k + 1 < text.len() {
                let e = encode_scalar(text[k + 1] as u32);
                lemma_scalar_in_bytes(text, k + 1);
                lemma_scalar_bytes(text[k + 1]);
                if text[k + 1] as u32 <= 0x7f {
                    lemma_ascii_terminators(text[k + 1]);
                }
                assert(bytes[p + 1] == bytes.subrange(p + 1, p + 1 + e.len())[0]);
            } else {
                assert(text.take(k + 1) =~= text);
            }
        },
    }
}

/// The rewritten prefix of a text is encoded as the rewritten prefix of its
/// encoding.
proof fn lemma_prefix_corresponds(text: Seq<char>, k: int, host: Newline)
    requires
        0 <= k <= text.len(),
    ensures
        0 <= offset_of(text, k) <= encode_utf8(text).len(),
        encode_utf8(normalized_prefix(text, k, host)) == normalized_prefix(
            encode_utf8(text),
            offset_of(text, k),
            host,
        ),
    decreases k,
{
    let bytes = encode_utf8(text);
    if k == 0 {
        assert(text.take(0) =~= Seq::<char>::empty());
    } else {
        lemma_prefix_corresponds(text, k - 1, host);
        let c = text[k - 1];
        let e = encode_scalar(c as u32);
        let p = offset_of(text, k - 1);
        let before = normalized_prefix(text, k - 1, host);
        lemma_scalar_in_bytes(text, k - 1);
        lemma_scalar_bytes(c);
        lemma_encode_concat(before, rewritten_at(text, k - 1, host));
        if c as u32 <= 0x7f {
            lemma_foreign_corresponds(text, k - 1, host);
            lemma_terminator_bytes();
            lemma_encode_one(c);
            assert(bytes[p] == bytes.subrange(p, p + 1)[0]);
            assert(encode_utf8(rewritten_at(text, k - 1, host)) =~= rewritten_at(bytes, p, host))
                by {
                reveal_strlit("\r\n");
                assert("\r\n"@ =~= seq!['\r', '\n']);
            }
        } else {
            assert(!foreign_at(text, k - 1, host));
            assert forall|j: int| p <= j < p + e.len() implies !foreign_at(bytes, j, host) by {
                assert(bytes[j] == bytes.subrange(p, p + e.len())[j - p]);
            }
            lemma_gap_is_copied(bytes, p, p + e.len(), host);
            lemma_encode_one(c);
        }
    }
}

/// Normalized text is encoded as the normalized bytes of the text, and a
/// text is native exactly when its bytes are.
pub proof fn lemma_bytes_of_normalized(text: Seq<char>, host: Newline)
    ensures
        encode_utf8(normalized(text, host)) == normalized(encode_utf8(text), host),
        is_native(text, host) <==> is_native(encode_utf8(text), host),
{
    lemma_prefix_corresponds(text, text.len() as int, host);
    assert(text.take(text.len() as int) =~= text);
    lemma_native_text_is_fixed(text, host);
    lemma_native_text_is_fixed(encode_utf8(text), host);
    encode_utf8_decode_utf8(text);
    encode_utf8_decode_utf8(normalized(text, host));
}

/// Rewriting the terminators of UTF-8 text gives UTF-8 text, which decodes
/// to the normal form of what the text decodes to.
pub proof fn lemma_normalized_is_utf8(bytes: Seq<u8>, host: Newline)
    requires
        valid_utf8(bytes),
    ensures
        valid_utf8(normalized(bytes, host)),
        decode_utf8(normalized(bytes, host)) == normalized(decode_utf8(bytes), host),
{
    decode_utf8_encode_utf8(bytes);
    lemma_bytes_of_normalized(decode_utf8(bytes), host);
    encode_utf8_valid_utf8(normalized(decode_utf8(bytes), host));
    encode_utf8_decode_utf8(normalized(decode_utf8(bytes), host));
}

/// The first foreign terminator of `text` at or after `from`, if there is
/// one.
fn next_foreign(text: &[u8], from: usize, host: Newline) -> (r: Option<usize>)
    requires
        from <= text@.len(),
    ensures
        match r {
            Some(i) => {
                &&& from <= i < text@.len()
                &&& foreign_at(text@, i as int, host)
                &&& forall|j: int| from <= j < i ==> !foreign_at(text@, j, host)
            },
            None => forall|j: int| from <= j ==> !foreign_at(text@, j, host),
        },
{
    let n = text.len();
    let mut i = from;
    while i < n
        invariant
            from <= i <= n,
            n == text@.len(),
            forall|j: int| from <= j < i ==> !foreign_at(text@, j, host),
        decreases n - i,
    {
        let found = match host {
            Newline::CrLf => text[i] == LF && !(i > 0 && text[i - 1] == CR),
            Newline::Lf => text[i] == CR && i + 1 < n && text[i + 1] == LF,
        };
        if found {
            return Some(i);
        }
        i += 1;
    }
    None
}

/// `String::with_capacity`: an empty string with room for `capacity` bytes.
/// The standard library panics when asked for more than `isize::MAX` bytes,
/// so such a request is not admitted.
pub assume_specification[ String::with_capacity ](capacity: usize) -> (s: String)
    requires
        capacity <= isize::MAX,
    ensures
        s@ == Seq::<char>::empty(),
;

/// Rewrites the line terminators of `input` to the convention of `host`.
///
/// Returns `None` when `input` holds no foreign terminator: the input is
/// then its own normal form and nothing is allocated. Otherwise the text is
/// rebuilt in one pass from left to right, in a buffer sized after the
/// input: each stretch between two foreign terminators is copied as it is,
/// and each foreign terminator is replaced by the native one. Where the
/// pair is native, a `\n` that already follows a `\r` belongs to such a
/// stretch and gains no second `\r`.
pub fn normalize_line_endings(input: &str, host: Newline) -> (r: Option<String>)
    ensures
        r is None <==> is_native(input@, host),
        r matches Some(s) ==> s@ == normalized(input@, host),
        r is None ==> normalized(input@, host) == input@,
{
    let bytes = input.as_bytes();
    let n = bytes.len();
    let first = next_foreign(bytes, 0, host);
    proof {
        lemma_bytes_of_normalized(input@, host);
        lemma_native_text_is_fixed(input@, host);
    }
    if first.is_none() {
        return None;
    }
    let mut out = if n <= isize::MAX as usize {
        String::with_capacity(n)
    } else {
        String::new()
    };
    let mut rest: &str = input;
    let mut offset: usize = 0;
    let mut next = first;
    proof {
        assert(bytes@.subrange(0, n as int) =~= bytes@);
        lemma_terminator_bytes();
    }
    while next.is_some()
        invariant
            n == bytes@.len(),
            bytes@ == encode_utf8(input@),
            offset <= n,
            encode_utf8(rest@) == bytes@.subrange(offset as int, n as int),
            encode_utf8(out@) == normalized_prefix(bytes@, offset as int, host),
            encode_utf8("\r\n"@) == seq![CR, LF],
            encode_utf8("\n"@) == seq![LF],
            match next {
                Some(i) => {
                    &&& offset <= i < n
                    &&& foreign_at(bytes@, i as int, host)
                    &&& forall|j: int| offset <= j < i ==> !foreign_at(bytes@, j, host)
                },
                None => forall|j: int| offset <= j ==> !foreign_at(bytes@, j, host),
            },
        decreases n - offset,
    {
        let start = next.unwrap();
        let width: usize = match host {
            Newline::CrLf => 1,
            Newline::Lf => 2,
        };
        let native = match host {
            Newline::CrLf => "\r\n",
            Newline::Lf => "\n",
        };
        let ghost tail_bytes = bytes@.subrange(start as int, n as int);
        proof {
            encode_utf8_valid_utf8(rest@);
            lemma_ascii_is_boundary(encode_utf8(rest@), start - offset);
        }
        let (gap, tail) = rest.split_at(start - offset);
        proof {
            assert(encode_utf8(gap@) =~= bytes@.subrange(offset as int, start as int));
            assert(encode_utf8(tail@) =~= tail_bytes);
            encode_utf8_valid_utf8(tail@);
            lemma_boundary_after_ascii(tail_bytes, width as int);
            lemma_gap_is_copied(bytes@, offset as int, start as int, host);
            lemma_encode_concat(out@, gap@);
            lemma_encode_concat(out@ + gap@, native@);
        }
        out.append(gap);
        out.append(native);
        let (_, after) = tail.split_at(width);
        proof {
            assert(encode_utf8(after@) =~= bytes@.subrange(start + width, n as int));
            if host == Newline::Lf {
                assert(!foreign_at(bytes@, start + 1, host));
                assert(normalized_prefix(bytes@, start + 1, host) =~= normalized_prefix(
                    bytes@,
                    start as int,
                    host,
                ));
            }
            assert(encode_utf8(out@) =~= normalized_prefix(bytes@, start + width, host));
        }
        rest = after;
        offset = start + width;
        next = next_foreign(bytes, offset, host);
    }
    proof {
        lemma_gap_is_copied(bytes@, offset as int, n as int, host);
        lemma_encode_concat(out@, rest@);
        assert(foreign_at(bytes@, first->0 as int, host));
    }
    out.append(rest);
    proof {
        encode_utf8_decode_utf8(out@);
        encode_utf8_decode_utf8(normalized(input@, host));
    }
    Some(out)
}

} // verus!
