use crate::decode::{
    decoding, first_undecodable, lemma_first_undecodable, lemma_valid_up_to_unique, outcome_view,
    string_from_utf8, text_under, valid_up_to,
};
use crate::error::BlobError;
use crate::normalize::{lemma_bytes_of_normalized, normalize_line_endings, normalized, Newline};
use crate::options::{opt_str_view, BlobOptions, LineEndings};
use crate::typed_array::{
    array_buffer_bytes, holds_run, typed_array_buffer, typed_array_bytes, typed_array_set,
    typed_array_with_length,
};
use crate::window::BufferWindow;
use js_sys::{ArrayBuffer, Uint8Array};
use vstd::prelude::*;
use vstd::utf8::*;

verus! {

/// The bytes of each part, in order.
pub open spec fn segments(parts: Seq<Vec<u8>>) -> Seq<Seq<u8>> {
    parts.map_values(|part: Vec<u8>| part@)
}

/// The characters of an optional owned string.
pub open spec fn opt_string_view(s: Option<String>) -> Option<Seq<char>> {
    match s {
        Some(t) => Some(t@),
        None => None,
    }
}

/// `String::into_boxed_str`: the same text, in a box of exactly its size.
pub assume_specification[ String::into_boxed_str ](s: String) -> (b: Box<str>)
    ensures
        b@ == s@,
;

/// Joins the parts end to end into one buffer. A single part is taken as it
/// is, without copying.
fn join_parts(parts: Vec<Vec<u8>>) -> (arena: Vec<u8>)
    ensures
        arena@ == segments(parts@).flatten(),
{
    let mut parts = parts;
    let ghost all = segments(parts@);
    if parts.len() == 1 {
        let only = parts.pop().unwrap();
        proof {
            all.lemma_flatten_one_element();
        }
        return only;
    }
    let mut arena: Vec<u8> = Vec::new();
    let mut i: usize = 0;
    while i < parts.len()
        invariant
            i <= parts@.len(),
            all == segments(parts@),
            arena@ == all.take(i as int).flatten(),
        decreases parts@.len() - i,
    {
        let ghost before = arena@;
        arena.extend_from_slice(parts[i].as_slice());
        proof {
            assert(arena@ =~= before + all[i as int]);
            assert(all.take(i + 1) =~= all.take(i as int).push(all[i as int]));
            all.take(i as int).lemma_flatten_push(all[i as int]);
        }
        i += 1;
    }
    proof {
        assert(all.take(i as int) =~= all);
    }
    arena
}

/// Joining the segments of a blob, or joining nothing but the one buffer
/// that holds them end to end, gives the same bytes, and so the same text or
/// the same error when they are decoded. For two segments `s1` and `s2` that
/// buffer is `s1 + s2`.
pub proof fn lemma_segments_decode_alike(
    parts: Seq<Seq<u8>>,
    endings: LineEndings,
    host: Newline,
)
    ensures
        parts.flatten() == seq![parts.flatten()].flatten(),
        decoding(parts.flatten(), endings, host) == decoding(
            seq![parts.flatten()].flatten(),
            endings,
            host,
        ),
        parts.len() == 2 ==> parts.flatten() == parts[0] + parts[1],
{
    seq![parts.flatten()].lemma_flatten_one_element();
    if parts.len() == 2 {
        assert(parts =~= seq![parts[0]].push(parts[1]));
        seq![parts[0]].lemma_flatten_push(parts[1]);
        seq![parts[0]].lemma_flatten_one_element();
    }
}

/// An immutable run of bytes with a line-ending policy and an optional
/// content type.
///
/// A blob shows a window of a shared byte arena. Slicing gives a blob on a
/// narrower window of the same arena; no operation changes a blob.
#[derive(Debug)]
pub struct Blob {
    window: BufferWindow,
    opts: BlobOptions,
}

impl View for Blob {
    type V = Seq<u8>;

    /// The bytes that the blob shows.
    open spec fn view(&self) -> Seq<u8> {
        self.arena().subrange(self.from_index(), self.to_index())
    }
}

impl Blob {
    /// All the bytes of the arena behind the blob.
    pub closed spec fn arena(&self) -> Seq<u8> {
        self.window.arena()
    }

    /// Where the blob starts, as an offset into its arena.
    pub closed spec fn from_index(&self) -> int {
        self.window.from_index()
    }

    /// Where the blob ends (exclusive), as an offset into its arena.
    pub closed spec fn to_index(&self) -> int {
        self.window.to_index()
    }

    /// The options of the blob.
    pub closed spec fn options(&self) -> BlobOptions {
        self.opts
    }

    /// The blob's window lies inside its arena, which fits into memory.
    pub open spec fn wf(&self) -> bool {
        0 <= self.from_index() <= self.to_index() <= self.arena().len() <= usize::MAX
    }

    /// The number of bytes that the blob shows.
    pub open spec fn spec_size(&self) -> usize {
        self@.len() as usize
    }

    /// The end of a slice: the offset given, or else the size of the blob.
    pub open spec fn slice_end(&self, end: Option<usize>) -> int {
        match end {
            Some(e) => e as int,
            None => self@.len() as int,
        }
    }

    /// The blob of the given parts, joined end to end.
    ///
    /// Without options the blob decodes its text unchanged and has no
    /// content type.
    #[inline]
    pub fn new(parts: Vec<Vec<u8>>, opts: Option<BlobOptions>) -> (r: Self)
        ensures
            r.wf(),
            r@ == segments(parts@).flatten(),
            r.arena() == r@,
            r.from_index() == 0,
            r.to_index() == r@.len(),
            r.size() == segments(parts@).flatten().len(),
            parts@.len() == 1 ==> r@ == parts@[0]@ && r.size() == parts@[0]@.len(),
            opts matches Some(o) ==> r.options() == o,
            opts is None ==> r.options().endings() == LineEndings::Transparent
                && r.options().content_type() == None::<Seq<char>>,
    {
        proof {
            if parts@.len() == 1 {
                segments(parts@).lemma_flatten_one_element();
            }
        }
        let window = BufferWindow::new(join_parts(parts));
        let opts = match opts {
            Some(o) => o,
            None => BlobOptions::default(),
        };
        Blob { window, opts }
    }

    /// The blob on the window `[start, end)` of the same arena, with the
    /// content type `ty`.
    ///
    /// Offsets count from the start of the arena, not from the start of this
    /// blob. Without `end` the slice ends at the offset `self.size()`. The
    /// range must not be empty and must lie inside this blob's window;
    /// otherwise the call fails with `OutOfRange`. The slice decodes its text
    /// unchanged, whatever the policy of this blob is. No byte is copied.
    pub fn slice(&self, start: usize, end: Option<usize>, ty: Option<String>) -> (r: Result<
        Blob,
        BlobError,
    >)
        ensures
            self.wf(),
            r is Ok <==> self.from_index() <= start < self.slice_end(end) <= self.to_index(),
            r matches Ok(b) ==> {
                &&& b.wf()
                &&& b.arena() == self.arena()
                &&& b.from_index() == start
                &&& b.to_index() == self.slice_end(end)
                &&& b@ == self.arena().subrange(start as int, self.slice_end(end))
                &&& b.size() == self.slice_end(end) - start
                &&& b.options().endings() == LineEndings::Transparent
                &&& b.options().content_type() == opt_string_view(ty)
            },
            r matches Err(e) ==> e == BlobError::OutOfRange,
    {
        let ty: Option<Box<str>> = match ty {
            Some(t) => Some(t.into_boxed_str()),
            None => None,
        };
        let end = match end {
            Some(e) => e,
            None => self.size(),
        };
        match self.window.slice(start, end) {
            Ok(window) => Ok(
                Blob { window, opts: BlobOptions::new(LineEndings::Transparent, ty) },
            ),
            Err(e) => Err(e),
        }
    }

    /// The number of bytes that the blob shows.
    #[inline]
    #[verifier::when_used_as_spec(spec_size)]
    pub fn size(&self) -> (r: usize)
        ensures
            self.wf(),
            r == self.spec_size(),
            r == self@.len(),
            r == self.to_index() - self.from_index(),
    {
        self.window.len()
    }

    /// The content type of the blob, if it has one.
    #[inline]
    pub fn ty(&self) -> (r: Option<&str>)
        ensures
            opt_str_view(r) == self.options().content_type(),
    {
        self.opts.ty()
    }

    /// Borrows the bytes that the blob shows, without copying them.
    #[inline]
    pub fn as_bytes(&self) -> (r: &[u8])
        ensures
            r@ == self@,
    {
        self.window.as_bytes()
    }

    /// Copies the bytes that the blob shows into a buffer of their own.
    pub fn coalesce(&self) -> (buffer: Vec<u8>)
        ensures
            buffer@ == self@,
    {
        let bytes = self.window.as_bytes();
        let capacity = bytes.len();
        let mut buffer: Vec<u8> = Vec::with_capacity(capacity);
        let mut ptr: usize = 0;
        while ptr < capacity
            invariant
                capacity == bytes@.len(),
                ptr <= capacity,
                buffer@ == bytes@.subrange(0, ptr as int),
            decreases capacity - ptr,
        {
            buffer.push(bytes[ptr]);
            proof {
                assert(buffer@ =~= bytes@.subrange(0, ptr + 1));
            }
            ptr += 1;
        }
        proof {
            assert(bytes@.subrange(0, capacity as int) =~= bytes@);
        }
        buffer
    }

    /// Decodes the bytes that the blob shows as UTF-8 text.
    ///
    /// The bytes are checked as a whole. If they are not UTF-8 the call fails
    /// with `InvalidEncoding`, which names the offset of the first byte that
    /// cannot be decoded. Under the policy `Native` the line terminators of
    /// the text are rewritten to the convention of `host`; text that holds
    /// no foreign terminator is returned as it was decoded. Under
    /// `Transparent` the text holds exactly the bytes of the blob.
    pub fn text(&self, host: Newline) -> (r: Result<String, BlobError>)
        ensures
            outcome_view(r) == decoding(self@, self.options().endings(), host),
            r is Ok <==> valid_utf8(self@),
            r matches Ok(s) ==> s@ == text_under(
                decode_utf8(self@),
                self.options().endings(),
                host,
            ),
            r matches Ok(s) ==> (match self.options().endings() {
                LineEndings::Transparent => encode_utf8(s@) == self@,
                LineEndings::Native => encode_utf8(s@) == normalized(self@, host),
            }),
            r matches Err(e) ==> e matches BlobError::InvalidEncoding { valid_up_to: k }
                && valid_up_to(self@, k as int) && k < self@.len(),
    {
        match string_from_utf8(self.coalesce()) {
            Ok(text) => {
                proof {
                    encode_utf8_decode_utf8(text@);
                    lemma_bytes_of_normalized(text@, host);
                }
                let text = match self.opts.line_endings() {
                    LineEndings::Native => match normalize_line_endings(text.as_str(), host) {
                        Some(rewritten) => rewritten,
                        None => text,
                    },
                    LineEndings::Transparent => text,
                };
                Ok(text)
            },
            Err(k) => {
                proof {
                    lemma_first_undecodable(self@);
                    lemma_valid_up_to_unique(self@, k as int, first_undecodable(self@));
                }
                Err(BlobError::InvalidEncoding { valid_up_to: k })
            },
        }
    }

    /// A stream over the bytes of the blob is the work of a host adapter:
    /// this library has none and always answers `NotImplemented`.
    pub fn stream() -> (r: Result<(), BlobError>)
        ensures
            r == Err::<(), BlobError>(BlobError::NotImplemented),
    {
        Err(BlobError::NotImplemented)
    }

    /// Copies the bytes that the blob shows into a new array of the host.
    ///
    /// A host array has at most `u32::MAX` elements.
    fn coalesce_js(&self) -> (buffer: Uint8Array)
        requires
            self@.len() <= u32::MAX,
        ensures
            typed_array_bytes(buffer) == self@,
    {
        let bytes = self.window.as_bytes();
        let len = bytes.len();
        let mut buffer = typed_array_with_length(len as u32);
        let mut ptr: u32 = 0;
        while (ptr as usize) < len
            invariant
                len == bytes@.len(),
                len <= u32::MAX,
                ptr <= len,
                typed_array_bytes(buffer).len() == len,
                forall|k: int| 0 <= k < ptr ==> typed_array_bytes(buffer)[k] == bytes@[k],
            decreases len - ptr,
        {
            typed_array_set(&mut buffer, ptr, bytes[ptr as usize]);
            ptr += 1;
        }
        proof {
            assert(typed_array_bytes(buffer) =~= bytes@);
        }
        buffer
    }

    /// The host's buffer behind a new host array that holds the bytes which
    /// the blob shows: the buffer holds those bytes as one stretch.
    ///
    /// A host array has at most `u32::MAX` elements.
    pub fn array_buffer(&self) -> (buffer: ArrayBuffer)
        requires
            self@.len() <= u32::MAX,
        ensures
            holds_run(array_buffer_bytes(buffer), self@),
    {
        typed_array_buffer(&self.coalesce_js())
    }

    /// The bytes that the blob shows, as a new array of the host.
    ///
    /// A host array has at most `u32::MAX` elements.
    pub fn bytes(&self) -> (array: Uint8Array)
        requires
            self@.len() <= u32::MAX,
        ensures
            typed_array_bytes(array) == self@,
    {
        self.coalesce_js()
    }
}

} // verus!
