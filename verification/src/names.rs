//! The protocol's fixed byte strings: certificate names, the transcript
//! marker, and the status-message prefixes of the caching variants.  Names
//! are UTF-8 byte strings; every fixed name used here is plain ASCII.

use vstd::prelude::*;

verus! {

/// The bytes of `"intermediate-ca"`.
pub open spec fn spec_name_intermediate_ca() -> Seq<u8> {
    seq![105u8, 110u8, 116u8, 101u8, 114u8, 109u8, 101u8, 100u8, 105u8, 97u8, 116u8, 101u8, 45u8, 99u8, 97u8]
}

pub fn name_intermediate_ca() -> (r: Vec<u8>)
    ensures
        r@ == spec_name_intermediate_ca(),
{
    let r = vec![105u8, 110u8, 116u8, 101u8, 114u8, 109u8, 101u8, 100u8, 105u8, 97u8, 116u8, 101u8, 45u8, 99u8, 97u8];
    proof {
        assert(r@ =~= spec_name_intermediate_ca());
    }
    r
}

/// The bytes of `"end-entity"`.
pub open spec fn spec_name_end_entity() -> Seq<u8> {
    seq![101u8, 110u8, 100u8, 45u8, 101u8, 110u8, 116u8, 105u8, 116u8, 121u8]
}

pub fn name_end_entity() -> (r: Vec<u8>)
    ensures
        r@ == spec_name_end_entity(),
{
    let r = vec![101u8, 110u8, 100u8, 45u8, 101u8, 110u8, 116u8, 105u8, 116u8, 121u8];
    proof {
        assert(r@ =~= spec_name_end_entity());
    }
    r
}

/// The bytes of `"root-ca"`.
pub open spec fn spec_name_root_ca() -> Seq<u8> {
    seq![114u8, 111u8, 111u8, 116u8, 45u8, 99u8, 97u8]
}

pub fn name_root_ca() -> (r: Vec<u8>)
    ensures
        r@ == spec_name_root_ca(),
{
    let r = vec![114u8, 111u8, 111u8, 116u8, 45u8, 99u8, 97u8];
    proof {
        assert(r@ =~= spec_name_root_ca());
    }
    r
}

/// The bytes of `"self-signed"`.
pub open spec fn spec_name_self_signed() -> Seq<u8> {
    seq![115u8, 101u8, 108u8, 102u8, 45u8, 115u8, 105u8, 103u8, 110u8, 101u8, 100u8]
}

pub fn name_self_signed() -> (r: Vec<u8>)
    ensures
        r@ == spec_name_self_signed(),
{
    let r = vec![115u8, 101u8, 108u8, 102u8, 45u8, 115u8, 105u8, 103u8, 110u8, 101u8, 100u8];
    proof {
        assert(r@ =~= spec_name_self_signed());
    }
    r
}

/// The bytes of `"client"`.
pub open spec fn spec_name_client() -> Seq<u8> {
    seq![99u8, 108u8, 105u8, 101u8, 110u8, 116u8]
}

pub fn name_client() -> (r: Vec<u8>)
    ensures
        r@ == spec_name_client(),
{
    let r = vec![99u8, 108u8, 105u8, 101u8, 110u8, 116u8];
    proof {
        assert(r@ =~= spec_name_client());
    }
    r
}

/// The bytes of `"transcript-hash"`, the fixed transcript marker the
/// client opens every handshake with.
pub open spec fn spec_transcript_marker() -> Seq<u8> {
    seq![116u8, 114u8, 97u8, 110u8, 115u8, 99u8, 114u8, 105u8, 112u8, 116u8, 45u8, 104u8, 97u8, 115u8, 104u8]
}

pub fn transcript_marker() -> (r: Vec<u8>)
    ensures
        r@ == spec_transcript_marker(),
{
    let r = vec![116u8, 114u8, 97u8, 110u8, 115u8, 99u8, 114u8, 105u8, 112u8, 116u8, 45u8, 104u8, 97u8, 115u8, 104u8];
    proof {
        assert(r@ =~= spec_transcript_marker());
    }
    r
}

/// The bytes of `"first "`, the status prefix announcing a first
/// connection for a session identifier.
pub open spec fn spec_first_prefix() -> Seq<u8> {
    seq![102u8, 105u8, 114u8, 115u8, 116u8, 32u8]
}

pub fn first_prefix() -> (r: Vec<u8>)
    ensures
        r@ == spec_first_prefix(),
{
    let r = vec![102u8, 105u8, 114u8, 115u8, 116u8, 32u8];
    proof {
        assert(r@ =~= spec_first_prefix());
    }
    r
}

/// The bytes of `"repeat "`, the status prefix announcing a repeat
/// connection for a session identifier.
pub open spec fn spec_repeat_prefix() -> Seq<u8> {
    seq![114u8, 101u8, 112u8, 101u8, 97u8, 116u8, 32u8]
}

pub fn repeat_prefix() -> (r: Vec<u8>)
    ensures
        r@ == spec_repeat_prefix(),
{
    let r = vec![114u8, 101u8, 112u8, 101u8, 97u8, 116u8, 32u8];
    proof {
        assert(r@ =~= spec_repeat_prefix());
    }
    r
}

} // verus!
