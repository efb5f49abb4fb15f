//! The client-address resolver: picks the one address believed to be the
//! real client from the transport peer and the optional forwarded chain.

use vstd::prelude::*;
use crate::errors::ResolutionError;
use crate::ip::{parse_ip, is_global, IpAddress};
use crate::text::{split_on, trim_spec};

verus! {

/// The address a chain entry denotes, after trimming.
pub open spec fn entry_ip(e: Seq<char>) -> Option<IpAddress> {
    parse_ip(trim_spec(e))
}

/// The outcome of scanning a chain from its last entry toward its first:
/// the first globally routable address met, a malformed-entry failure as
/// soon as an entry does not parse, or exhaustion without a global address.
pub open spec fn scan_chain(entries: Seq<Seq<char>>) -> Result<IpAddress, ResolutionError>
    decreases entries.len(),
{
    if entries.len() == 0 {
        Err(ResolutionError::NoGlobalAddressFound)
    } else {
        match entry_ip(entries.last()) {
            None => Err(ResolutionError::MalformedChainEntry),
            Some(ip) => if is_global(ip) {
                Ok(ip)
            } else {
                scan_chain(entries.drop_last())
            },
        }
    }
}

/// The newest entry is scanned first: when it parses to a globally routable
/// address, that address wins at once, whatever stands earlier in the chain.
pub proof fn lemma_global_newest_entry_wins(entries: Seq<Seq<char>>)
    requires
        entries.len() > 0,
        entry_ip(entries.last()) is Some,
        is_global(entry_ip(entries.last())->0),
    ensures
        scan_chain(entries) == Ok::<IpAddress, ResolutionError>(entry_ip(entries.last())->0),
{
}

/// An entry that fails to parse aborts the scan at once: no earlier entry is
/// reached, even one that holds a globally routable address.
pub proof fn lemma_malformed_entry_aborts(entries: Seq<Seq<char>>)
    requires
        entries.len() > 0,
        entry_ip(entries.last()) is None,
    ensures
        scan_chain(entries) == Err::<IpAddress, ResolutionError>(
            ResolutionError::MalformedChainEntry,
        ),
{
}

/// An entry that parses to a non-global address is passed over: the scan of
/// the chain with it appended is the scan of the chain without it.
pub proof fn lemma_non_global_entry_skipped(entries: Seq<Seq<char>>, e: Seq<char>)
    requires
        entry_ip(e) is Some,
        !is_global(entry_ip(e)->0),
    ensures
        scan_chain(entries.push(e)) == scan_chain(entries),
{
    assert(entries.push(e).last() == e);
    assert(entries.push(e).drop_last() =~= entries);
}

/// A chain whose entries all parse but hold no globally routable address is
/// exhausted without a winner.
pub proof fn lemma_exhausted_scan_fails(entries: Seq<Seq<char>>)
    requires
        forall|i: int|
            0 <= i < entries.len() ==> (#[trigger] entry_ip(entries[i])) is Some && !is_global(
                entry_ip(entries[i])->0,
            ),
    ensures
        scan_chain(entries) == Err::<IpAddress, ResolutionError>(
            ResolutionError::NoGlobalAddressFound,
        ),
    decreases entries.len(),
{
    if entries.len() > 0 {
        assert(entry_ip(entries.last()) == entry_ip(entries[entries.len() - 1]));
        assert(forall|i: int|
            0 <= i < entries.len() - 1 ==> #[trigger] entries.drop_last()[i] == entries[i]);
        lemma_exhausted_scan_fails(entries.drop_last());
    }
}

/// Any address the scan takes out of a chain is globally routable: only the
/// chainless case hands the peer through unchecked.
pub proof fn lemma_chain_result_is_global(entries: Seq<Seq<char>>)
    ensures
        scan_chain(entries) matches Ok(ip) ==> is_global(ip),
    decreases entries.len(),
{
    if entries.len() > 0 && entry_ip(entries.last()) is Some && !is_global(
        entry_ip(entries.last())->0,
    ) {
        lemma_chain_result_is_global(entries.drop_last());
    }
}

/// What resolution returns: the peer itself when no chain came, else the
/// reverse scan of the comma-split chain.
pub open spec fn resolve_spec(peer: Option<IpAddress>, header: Option<Seq<char>>) -> Result<
    IpAddress,
    ResolutionError,
> {
    match peer {
        None => Err(ResolutionError::MissingPeerAddress),
        Some(p) => match header {
            None => Ok(p),
            Some(h) => scan_chain(split_on(h, ',')),
        },
    }
}

/// Scans the comma-split chain of `header` from its newest entry backward.
fn scan_header(header: &str) -> (r: Result<IpAddress, ResolutionError>)
    ensures
        r == scan_chain(split_on(header@, ',')),
{
    let entries = crate::text::split_str(header, ',');
    let ghost views = entries@.map_values(|t: String| t@);
    let mut j = entries.len();
    proof {
        assert(views.subrange(0, j as int) =~= views);
    }
    while j > 0
        invariant
            j <= entries.len(),
            views == entries@.map_values(|t: String| t@),
            views == split_on(header@, ','),
            scan_chain(views) == scan_chain(views.subrange(0, j as int)),
        decreases j,
    {
        let ghost prefix = views.subrange(0, j as int);
        proof {
            assert(prefix.last() == views[j - 1]);
            assert(prefix.drop_last() =~= views.subrange(0, j - 1));
            assert(views[j - 1] == entries@[j - 1]@);
        }
        let trimmed = crate::text::trim_str(entries[j - 1].as_str());
        match crate::ip::parse_ip_str(trimmed.as_str()) {
            None => {
                return Err(ResolutionError::MalformedChainEntry);
            },
            Some(ip) => {
                if crate::ip::is_global_exec(&ip) {
                    return Ok(ip);
                }
            },
        }
        j = j - 1;
    }
    proof {
        assert(views.subrange(0, 0) =~= Seq::<Seq<char>>::empty());
    }
    Err(ResolutionError::NoGlobalAddressFound)
}

/// Resolves the client address.
///
/// Without a forwarded header the transport peer is taken as it is, however
/// it classifies. With one, the comma-split, trimmed chain is scanned from
/// the last entry toward the first; the first globally routable address
/// wins, an entry that fails to parse aborts the whole resolution at once,
/// and a scan that exhausts the chain finds no client at all.
pub fn resolve(peer: Option<IpAddress>, header: Option<&str>) -> (r: Result<
    IpAddress,
    ResolutionError,
>)
    ensures
        r == resolve_spec(
            peer,
            match header {
                Some(h) => Some(h@),
                None => None::<Seq<char>>,
            },
        ),
        peer is Some && header is None ==> r == Ok::<IpAddress, ResolutionError>(peer->0),
{
    match peer {
        None => Err(ResolutionError::MissingPeerAddress),
        Some(p) => match header {
            None => Ok(p),
            Some(h) => scan_header(h),
        },
    }
}

} // verus!
