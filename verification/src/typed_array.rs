use vstd::prelude::*;

verus! {

/// The host's array of bytes, `Uint8Array` of js-sys. A value of it is a
/// handle on an object that lives in the JavaScript heap; js-sys reaches it
/// through functions that the host provides, so the functions below can only
/// be called where a JavaScript host runs the program.
#[verifier::external_type_specification]
#[verifier::external_body]
pub struct ExUint8Array(js_sys::Uint8Array);

/// The host's raw buffer, `ArrayBuffer` of js-sys: the fixed-length run of
/// bytes that a host array looks into.
#[verifier::external_type_specification]
#[verifier::external_body]
pub struct ExArrayBuffer(js_sys::ArrayBuffer);

/// The elements of a host array, in order.
pub uninterp spec fn typed_array_bytes(array: js_sys::Uint8Array) -> Seq<u8>;

/// The bytes of a host buffer, in order.
pub uninterp spec fn array_buffer_bytes(buffer: js_sys::ArrayBuffer) -> Seq<u8>;

/// `run` stands in `bytes` from the offset `at` on.
pub open spec fn run_at(bytes: Seq<u8>, at: int, run: Seq<u8>) -> bool {
    0 <= at && at + run.len() <= bytes.len() && bytes.subrange(at, at + run.len()) == run
}

/// `bytes` holds `run` as one stretch.
pub open spec fn holds_run(bytes: Seq<u8>, run: Seq<u8>) -> bool {
    exists|at: int| run_at(bytes, at, run)
}

/// `Uint8Array::new_with_length`: a new host array of `length` elements.
/// Nothing is claimed of what the elements hold.
#[verifier::external_body]
pub(crate) fn typed_array_with_length(length: u32) -> (array: js_sys::Uint8Array)
    ensures
        typed_array_bytes(array).len() == length,
{
    js_sys::Uint8Array::new_with_length(length)
}

/// `Uint8Array::set_index`, the assignment `array[idx] = value` of the host:
/// the element at `idx` becomes `value` and the others stay. The index must
/// lie inside the array.
#[verifier::external_body]
pub(crate) fn typed_array_set(array: &mut js_sys::Uint8Array, idx: u32, value: u8)
    requires
        idx < typed_array_bytes(*old(array)).len(),
    ensures
        typed_array_bytes(*final(array)) == typed_array_bytes(*old(array)).update(
            idx as int,
            value,
        ),
{
    array.set_index(idx, value)
}

/// `Uint8Array::buffer`: the buffer that the array refers to. js-sys
/// describes a host array as a view of its buffer that starts at the array's
/// byte offset and runs for its length, through which the buffer is read and
/// written; so the elements of the array stand in the buffer as one stretch.
/// js-sys does not say at which offset a new array lies nor how long its
/// buffer is, and neither is claimed.
#[verifier::external_body]
pub(crate) fn typed_array_buffer(array: &js_sys::Uint8Array) -> (buffer: js_sys::ArrayBuffer)
    ensures
        holds_run(array_buffer_bytes(buffer), typed_array_bytes(*array)),
{
    array.buffer()
}

} // verus!
