//! Time limits for tool calls, and the tracking of calls under way.

use vstd::prelude::*;

verus! {

/// The port of the tool server.
pub const MCP_PORT: u16 = 8338;

/// How many tool calls may be under way at once.
pub const MAX_CONCURRENT_REQUESTS: usize = 3;

/// Whether a tool answers quickly.
pub open spec fn is_fast_tool(name: Seq<char>) -> bool {
    name == "read_file"@ || name == "list_files"@ || name == "get_loaded_rules"@ || name
        == "search_symbol"@
}

/// Whether a tool answers in moderate time.
pub open spec fn is_medium_tool(name: Seq<char>) -> bool {
    name == "get_code_structure"@ || name == "find_call_sites"@ || name == "get_class_hierarchy"@
        || name == "search_files"@
}

/// Whether a tool may take very long.
pub open spec fn is_heavy_tool(name: Seq<char>) -> bool {
    name == "build_ast_index"@ || name == "run_security_scan"@ || name == "verify_finding"@
}

/// The time limit of a tool, in seconds: 10 for the fast ones, 30 for the
/// medium ones, 180 for the heavy ones, 60 for all others.
pub open spec fn tool_timeout(name: Seq<char>) -> u64 {
    if is_fast_tool(name) {
        10
    } else if is_medium_tool(name) {
        30
    } else if is_heavy_tool(name) {
        180
    } else {
        60
    }
}

/// The time limit of a tool, in seconds.
pub fn get_tool_timeout(tool_name: &str) -> (secs: u64)
    ensures
        secs == tool_timeout(tool_name@),
{
    if tool_name.eq("read_file") || tool_name.eq("list_files") || tool_name.eq("get_loaded_rules")
        || tool_name.eq("search_symbol") {
        10
    } else if tool_name.eq("get_code_structure") || tool_name.eq("find_call_sites") || tool_name.eq(
        "get_class_hierarchy",
    ) || tool_name.eq("search_files") {
        30
    } else if tool_name.eq("build_ast_index") || tool_name.eq("run_security_scan") || tool_name.eq(
        "verify_finding",
    ) {
        180
    } else {
        60
    }
}

/// A tool call under way: its id, the tool, and when it started, in
/// seconds on a clock that never runs backwards.
#[derive(Debug)]
pub struct RequestInfo {
    pub id: u64,
    pub tool_name: String,
    pub started_at: u64,
}

/// Whether a call has been under way for more than `timeout_secs` at the
/// time `now`. A call that started after `now` has not.
pub open spec fn is_overdue(r: RequestInfo, now: u64, timeout_secs: u64) -> bool {
    now >= r.started_at && now - r.started_at > timeout_secs
}

/// The ids of a list of calls.
pub open spec fn request_ids(v: Seq<RequestInfo>) -> Seq<u64> {
    v.map_values(|r: RequestInfo| r.id)
}

/// Takes the overdue calls out of `active` and returns their ids. Both the
/// calls that stay and the ids returned keep their order.
pub fn check_timeout(active: &mut Vec<RequestInfo>, now: u64, timeout_secs: u64) -> (ids: Vec<u64>)
    ensures
        final(active)@ == old(active)@.filter(|r: RequestInfo| !is_overdue(r, now, timeout_secs)),
        ids@ == request_ids(old(active)@.filter(|r: RequestInfo| is_overdue(r, now, timeout_secs))),
{
    let ghost stays = |r: RequestInfo| !is_overdue(r, now, timeout_secs);
    let ghost goes = |r: RequestInfo| is_overdue(r, now, timeout_secs);
    let mut kept: Vec<RequestInfo> = Vec::new();
    let mut ids: Vec<u64> = Vec::new();
    let mut i: usize = 0;
    proof {
        assert(active@.take(0) =~= Seq::empty());
        assert(Seq::<RequestInfo>::empty().filter(stays) =~= Seq::empty()) by {
            reveal(Seq::filter);
        }
        assert(Seq::<RequestInfo>::empty().filter(goes) =~= Seq::empty()) by {
            reveal(Seq::filter);
        }
        assert(ids@ =~= request_ids(Seq::empty()));
    }
    while i < active.len()
        invariant
            i <= active.len(),
            active@ == old(active)@,
            stays == (|r: RequestInfo| !is_overdue(r, now, timeout_secs)),
            goes == (|r: RequestInfo| is_overdue(r, now, timeout_secs)),
            kept@ == active@.take(i as int).filter(stays),
            ids@ == request_ids(active@.take(i as int).filter(goes)),
        decreases active.len() - i,
    {
        let r = &active[i];
        proof {
            assert(active@.take(i as int).push(*r) =~= active@.take(i + 1));
            active@.take(i as int).lemma_filter_push(*r, stays);
            active@.take(i as int).lemma_filter_push(*r, goes);
        }
        if now >= r.started_at && now - r.started_at > timeout_secs {
            let ghost before = ids@;
            ids.push(r.id);
            proof {
                assert(ids@ =~= request_ids(active@.take(i as int).filter(goes).push(*r)));
            }
        } else {
            kept.push(RequestInfo { id: r.id, tool_name: r.tool_name.clone(), started_at: r.started_at });
        }
        i += 1;
    }
    proof {
        assert(active@.take(active.len() as int) =~= active@);
    }
    *active = kept;
    ids
}

} // verus!
