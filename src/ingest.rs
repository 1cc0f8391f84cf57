use vstd::prelude::*;
use crate::cache::{handle_spec, GossipCache};
use crate::codec::{decode_gossip, decode_spec};
use crate::message::{opt_view, GossipMessage, MessageView};

verus! {

/// The 16-bit tag under which this protocol's frames are broadcast.
pub const OUR_COMPANY_ID: u16 = 0x1234;

/// Seconds to wait between two scans of the medium.
pub const SCAN_INTERVAL_SECS: u64 = 5;

/// The outcome of one broadcast entry tagged `company_id` carrying `data`:
/// entries under another tag and malformed frames are dropped untouched;
/// the rest go through the cache.
pub open spec fn ingest_spec(seen: Set<u32>, company_id: u16, data: Seq<u8>) -> (
    Set<u32>,
    Option<MessageView>,
) {
    if company_id != OUR_COMPANY_ID {
        (seen, None)
    } else {
        match decode_spec(data) {
            None => (seen, None),
            Some(m) => handle_spec(seen, m),
        }
    }
}

/// The state after ingesting `entries` in order, and the accepted messages
/// in the order they were accepted.
pub open spec fn ingest_all(seen: Set<u32>, entries: Seq<(u16, Vec<u8>)>) -> (
    Set<u32>,
    Seq<MessageView>,
)
    decreases entries.len(),
{
    if entries.len() == 0 {
        (seen, Seq::empty())
    } else {
        let prev = ingest_all(seen, entries.drop_last());
        let step = ingest_spec(prev.0, entries.last().0, entries.last().1@);
        match step.1 {
            Some(m) => (step.0, prev.1.push(m)),
            None => (step.0, prev.1),
        }
    }
}

/// Runs one broadcast entry through the protocol filter, the decoder and the
/// cache; returns the message to relay, if any.
pub fn process_entry(cache: &mut GossipCache, company_id: u16, data: &[u8]) -> (r: Option<
    GossipMessage,
>)
    requires
        old(cache).wf(),
    ensures
        final(cache).wf(),
        (final(cache)@, opt_view(r)) == ingest_spec(old(cache)@, company_id, data@),
{
    if company_id != OUR_COMPANY_ID {
        return None;
    }
    match decode_gossip(data) {
        None => None,
        Some(msg) => cache.handle(msg),
    }
}

/// Runs every entry found in one scan through [`process_entry`], in order,
/// and returns the accepted messages, ready to relay.
pub fn process_entries(cache: &mut GossipCache, entries: &[(u16, Vec<u8>)]) -> (r: Vec<
    GossipMessage,
>)
    requires
        old(cache).wf(),
    ensures
        final(cache).wf(),
        final(cache)@ == ingest_all(old(cache)@, entries@).0,
        r@.map_values(|m: GossipMessage| m@) == ingest_all(old(cache)@, entries@).1,
{
    let ghost start = cache@;
    let mut out: Vec<GossipMessage> = Vec::new();
    let mut i: usize = 0;
    while i < entries.len()
        invariant
            i <= entries@.len(),
            cache.wf(),
            cache@ == ingest_all(start, entries@.subrange(0, i as int)).0,
            out@.map_values(|m: GossipMessage| m@) == ingest_all(
                start,
                entries@.subrange(0, i as int),
            ).1,
        decreases entries@.len() - i,
    {
        let ghost before = out@;
        let r = process_entry(cache, entries[i].0, entries[i].1.as_slice());
        assert(entries@.subrange(0, i + 1).drop_last() =~= entries@.subrange(0, i as int));
        match r {
            Some(m) => {
                out.push(m);
                assert(out@.map_values(|m: GossipMessage| m@) =~= before.map_values(
                    |m: GossipMessage| m@,
                ).push(m@));
            },
            None => {},
        }
        i = i + 1;
    }
    assert(entries@.subrange(0, entries@.len() as int) =~= entries@);
    out
}

} // verus!
