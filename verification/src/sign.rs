//! The sign of an upload: the lower-case hexadecimal MD5 digest of the file's bytes,
//! computed as the bytes are read.
use vstd::prelude::*;
use crate::text::{hex_lower, push_hex_lower};

verus! {

#[verifier::external_type_specification]
#[verifier::external_body]
pub struct ExMd5Context(md5::Context);

/// The MD5 digest of a byte string (16 bytes).
pub uninterp spec fn md5_digest(data: Seq<u8>) -> Seq<u8>;

/// The bytes an MD5 context has consumed so far.
pub uninterp spec fn md5_consumed(ctx: md5::Context) -> Seq<u8>;

/// `md5::Context::new`: a context that has consumed nothing.
#[verifier::external_body]
fn md5_new() -> (c: md5::Context)
    ensures
        md5_consumed(c) == Seq::<u8>::empty(),
{
    md5::Context::new()
}

/// `md5::Context::consume`: the context has consumed `data` after what it had before.
#[verifier::external_body]
fn md5_consume(ctx: &mut md5::Context, data: &[u8])
    ensures
        md5_consumed(*final(ctx)) == md5_consumed(*old(ctx)) + data@,
{
    ctx.consume(data);
}

/// `md5::Context::compute`: the 16-byte digest of everything the context consumed.
#[verifier::external_body]
fn md5_compute(ctx: md5::Context) -> (d: [u8; 16])
    ensures
        d@ == md5_digest(md5_consumed(ctx)),
{
    ctx.compute().0
}

/// Computes the sign of a file from its bytes, handed in piece by piece.
pub struct FileSigner {
    ctx: md5::Context,
}

impl FileSigner {
    /// The bytes handed in so far.
    pub closed spec fn consumed(&self) -> Seq<u8> {
        md5_consumed(self.ctx)
    }

    pub fn new() -> (s: FileSigner)
        ensures
            s.consumed() == Seq::<u8>::empty(),
    {
        FileSigner { ctx: md5_new() }
    }

    /// Hands in the next bytes of the file.
    pub fn update(&mut self, data: &[u8])
        ensures
            final(self).consumed() == old(self).consumed() + data@,
    {
        md5_consume(&mut self.ctx, data);
    }

    /// The sign: the lower-case hexadecimal MD5 digest of every byte handed in.
    pub fn finish(self) -> (sign: String)
        ensures
            sign@ == hex_lower(md5_digest(self.consumed())),
    {
        let digest = md5_compute(self.ctx);
        let mut s = String::new();
        push_hex_lower(&mut s, &digest);
        assert(Seq::<char>::empty() + hex_lower(md5_digest(self.consumed())) =~= hex_lower(md5_digest(self.consumed())));
        s
    }
}

} // verus!
