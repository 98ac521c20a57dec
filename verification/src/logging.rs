//! Trace identifiers that tie log lines of one batch, flow or request together.

use vstd::prelude::*;
use crate::text::{owned, u64_text, nat_text};
use crate::fast_ulid::now_ms;

verus! {

/// "batch_{seq}_{ms}".
pub open spec fn batch_trace_text(seq: u64, ms: u64) -> Seq<char> {
    "batch_"@ + nat_text(seq as nat) + "_"@ + nat_text(ms as nat)
}

/// "flow_{kind}_{unique}_{ms}".
pub open spec fn flow_trace_text(flow_type: Seq<char>, unique: Seq<char>, ms: u64) -> Seq<char> {
    "flow_"@ + flow_type + "_"@ + unique + "_"@ + nat_text(ms as nat)
}

/// "req_{seq}_{ms}".
pub open spec fn request_trace_text(seq: u64, ms: u64) -> Seq<char> {
    "req_"@ + nat_text(seq as nat) + "_"@ + nat_text(ms as nat)
}

/// The trace id of a batch at the given clock reading.
pub fn batch_trace_id_at(seq: u64, ms: u64) -> (res: String)
    ensures
        res@ == batch_trace_text(seq, ms),
{
    owned("batch_").concat(u64_text(seq).as_str()).concat("_").concat(u64_text(ms).as_str())
}

/// The trace id of a flow at the given clock reading.
pub fn flow_trace_id_at(flow_type: &str, unique: &str, ms: u64) -> (res: String)
    ensures
        res@ == flow_trace_text(flow_type@, unique@, ms),
{
    owned("flow_").concat(flow_type).concat("_").concat(unique).concat("_").concat(u64_text(ms).as_str())
}

/// The trace id of a request at the given clock reading.
pub fn request_trace_id_at(seq: u64, ms: u64) -> (res: String)
    ensures
        res@ == request_trace_text(seq, ms),
{
    owned("req_").concat(u64_text(seq).as_str()).concat("_").concat(u64_text(ms).as_str())
}

/// The trace id of a batch, stamped with the current time.
pub fn gen_batch_trace_id(seq: u64) -> (res: String)
    ensures
        exists|ms: u64| res@ == batch_trace_text(seq, ms),
{
    batch_trace_id_at(seq, now_ms())
}

/// The trace id of a flow, stamped with the current time.
pub fn gen_flow_trace_id(flow_type: &str, unique: &str) -> (res: String)
    ensures
        exists|ms: u64| res@ == flow_trace_text(flow_type@, unique@, ms),
{
    flow_trace_id_at(flow_type, unique, now_ms())
}

/// The trace id of a request, stamped with the current time.
pub fn gen_request_trace_id(seq: u64) -> (res: String)
    ensures
        exists|ms: u64| res@ == request_trace_text(seq, ms),
{
    request_trace_id_at(seq, now_ms())
}

} // verus!
