use vstd::prelude::*;
use bytes::Bytes;
use crate::task::hyper_task_return_type;

verus! {

/// `bytes::Bytes`, an immutable byte range that its owners share.
#[verifier::external_type_specification]
#[verifier::external_body]
pub struct ExBytes(Bytes);

/// The bytes that a `bytes::Bytes` holds, in order.
pub uninterp spec fn bytes_contents(b: Bytes) -> Seq<u8>;

/// `Bytes::copy_from_slice`: a new buffer that holds a copy of `src`.
#[verifier::external_body]
pub(crate) fn bytes_copy_from_slice(src: &[u8]) -> (r: Bytes)
    ensures
        bytes_contents(r) == src@,
{
    Bytes::copy_from_slice(src)
}

/// `Bytes::as_ref`: the buffer's bytes as a borrowed slice.
#[verifier::external_body]
pub(crate) fn bytes_as_slice(b: &Bytes) -> (r: &[u8])
    ensures
        r@ == bytes_contents(*b),
{
    b.as_ref()
}

/// One chunk of body data. Its bytes never change.
pub struct hyper_buf(pub Bytes);

impl View for hyper_buf {
    type V = Seq<u8>;

    open spec fn view(&self) -> Seq<u8> {
        bytes_contents(self.0)
    }
}

impl hyper_buf {
    /// A buffer that holds a copy of `src`.
    pub fn copy_from_slice(src: &[u8]) -> (r: hyper_buf)
        ensures
            r@ == src@,
    {
        hyper_buf(bytes_copy_from_slice(src))
    }

    /// The buffer's bytes, borrowed for as long as the buffer lives.
    pub fn bytes(&self) -> (r: &[u8])
        ensures
            r@ == self@,
    {
        bytes_as_slice(&self.0)
    }

    /// The number of bytes in the buffer.
    pub fn len(&self) -> (r: usize)
        ensures
            r == self@.len(),
    {
        bytes_as_slice(&self.0).len()
    }

    /// The tag of a task that finished with this buffer.
    pub fn as_task_type(&self) -> (r: hyper_task_return_type)
        ensures
            r == hyper_task_return_type::HYPER_TASK_BUF,
    {
        hyper_task_return_type::HYPER_TASK_BUF
    }
}

} // verus!
