use vstd::prelude::*;

verus! {

// The fixed byte sequences of the message encoding.

/// The opening of a `Command` up to its text. (`{"Command":{"command":`)
pub open spec fn command_head() -> Seq<u8> {
    seq![123u8, 34, 67, 111, 109, 109, 97, 110, 100, 34, 58, 123, 34, 99, 111, 109, 109, 97, 110, 100, 34, 58]
}

pub(crate) fn command_head_bytes() -> (r: Vec<u8>)
    ensures
        r@ == command_head(),
{
    let r = vec![123u8, 34, 67, 111, 109, 109, 97, 110, 100, 34, 58, 123, 34, 99, 111, 109, 109, 97, 110, 100, 34, 58];
    proof {
        assert(r@ =~= command_head());
    }
    r
}

/// The opening of a `Response` up to its success flag. (`{"Response":{"success":`)
pub open spec fn response_head() -> Seq<u8> {
    seq![123u8, 34, 82, 101, 115, 112, 111, 110, 115, 101, 34, 58, 123, 34, 115, 117, 99, 99, 101, 115, 115, 34, 58]
}

pub(crate) fn response_head_bytes() -> (r: Vec<u8>)
    ensures
        r@ == response_head(),
{
    let r = vec![123u8, 34, 82, 101, 115, 112, 111, 110, 115, 101, 34, 58, 123, 34, 115, 117, 99, 99, 101, 115, 115, 34, 58];
    proof {
        assert(r@ =~= response_head());
    }
    r
}

/// The key before the standard output. (`,"stdout":`)
pub open spec fn stdout_key() -> Seq<u8> {
    seq![44u8, 34, 115, 116, 100, 111, 117, 116, 34, 58]
}

pub(crate) fn stdout_key_bytes() -> (r: Vec<u8>)
    ensures
        r@ == stdout_key(),
{
    let r = vec![44u8, 34, 115, 116, 100, 111, 117, 116, 34, 58];
    proof {
        assert(r@ =~= stdout_key());
    }
    r
}

/// The key before the standard error. (`,"stderr":`)
pub open spec fn stderr_key() -> Seq<u8> {
    seq![44u8, 34, 115, 116, 100, 101, 114, 114, 34, 58]
}

pub(crate) fn stderr_key_bytes() -> (r: Vec<u8>)
    ensures
        r@ == stderr_key(),
{
    let r = vec![44u8, 34, 115, 116, 100, 101, 114, 114, 34, 58];
    proof {
        assert(r@ =~= stderr_key());
    }
    r
}

/// The key before the exit code. (`,"exit_code":`)
pub open spec fn exit_code_key() -> Seq<u8> {
    seq![44u8, 34, 101, 120, 105, 116, 95, 99, 111, 100, 101, 34, 58]
}

pub(crate) fn exit_code_key_bytes() -> (r: Vec<u8>)
    ensures
        r@ == exit_code_key(),
{
    let r = vec![44u8, 34, 101, 120, 105, 116, 95, 99, 111, 100, 101, 34, 58];
    proof {
        assert(r@ =~= exit_code_key());
    }
    r
}

/// The opening of an `Error` up to its text. (`{"Error":{"message":`)
pub open spec fn error_head() -> Seq<u8> {
    seq![123u8, 34, 69, 114, 114, 111, 114, 34, 58, 123, 34, 109, 101, 115, 115, 97, 103, 101, 34, 58]
}

pub(crate) fn error_head_bytes() -> (r: Vec<u8>)
    ensures
        r@ == error_head(),
{
    let r = vec![123u8, 34, 69, 114, 114, 111, 114, 34, 58, 123, 34, 109, 101, 115, 115, 97, 103, 101, 34, 58];
    proof {
        assert(r@ =~= error_head());
    }
    r
}

/// The end of every message. (`}}`)
pub open spec fn closing() -> Seq<u8> {
    seq![125u8, 125]
}

pub(crate) fn closing_bytes() -> (r: Vec<u8>)
    ensures
        r@ == closing(),
{
    let r = vec![125u8, 125];
    proof {
        assert(r@ =~= closing());
    }
    r
}

/// JSON `true`. (`true`)
pub open spec fn true_text() -> Seq<u8> {
    seq![116u8, 114, 117, 101]
}

pub(crate) fn true_text_bytes() -> (r: Vec<u8>)
    ensures
        r@ == true_text(),
{
    let r = vec![116u8, 114, 117, 101];
    proof {
        assert(r@ =~= true_text());
    }
    r
}

/// JSON `false`. (`false`)
pub open spec fn false_text() -> Seq<u8> {
    seq![102u8, 97, 108, 115, 101]
}

pub(crate) fn false_text_bytes() -> (r: Vec<u8>)
    ensures
        r@ == false_text(),
{
    let r = vec![102u8, 97, 108, 115, 101];
    proof {
        assert(r@ =~= false_text());
    }
    r
}

/// JSON `null`. (`null`)
pub open spec fn null_text() -> Seq<u8> {
    seq![110u8, 117, 108, 108]
}

pub(crate) fn null_text_bytes() -> (r: Vec<u8>)
    ensures
        r@ == null_text(),
{
    let r = vec![110u8, 117, 108, 108];
    proof {
        assert(r@ =~= null_text());
    }
    r
}

} // verus!
