//! Trusted views of the concurrent hash maps (scc's `HashMap`) that index the
//! session registry: clients by session id, sessions by UDP address, sessions
//! awaiting a UDP binding, and channels by id.
//!
//! Each map's contents are named by an uninterpreted function, and every
//! method the registry calls is a wrapper whose contract states, over that
//! name, what scc's source shows.

use crate::chan::Channel;
use crate::client::Client;
use crate::msg::UdpAddr;
use vstd::prelude::*;

verus! {

#[verifier::external_type_specification]
#[verifier::external_body]
#[verifier::reject_recursive_types(K)]
#[verifier::reject_recursive_types(V)]
#[verifier::reject_recursive_types(H)]
pub struct ExSccHashMap<K, V, H>(scc::HashMap<K, V, H>) where H: std::hash::BuildHasher;

/// What the client map holds.
pub uninterp spec fn cm_contents(m: scc::HashMap<u32, Client>) -> Map<u32, Client>;

/// Relies on scc::HashMap::new: a fresh map is empty.
#[verifier::external_body]
pub fn cm_new() -> (r: scc::HashMap<u32, Client>)
    ensures
        forall|k: u32| !cm_contents(r).dom().contains(k),
{
    scc::HashMap::new()
}

/// Relies on scc::HashMap::upsert_sync: inserts or overwrites the entry.
#[verifier::external_body]
pub fn cm_insert(m: &mut scc::HashMap<u32, Client>, k: u32, v: Client)
    ensures
        cm_contents(*final(m)) == cm_contents(*old(m)).insert(k, v),
{
    m.upsert_sync(k, v);
}

/// Relies on scc::HashMap::remove_sync: removes the entry, if any.
#[verifier::external_body]
pub fn cm_remove(m: &mut scc::HashMap<u32, Client>, k: u32)
    ensures
        cm_contents(*final(m)) == cm_contents(*old(m)).remove(k),
{
    m.remove_sync(&k);
}

/// Relies on scc::HashMap::read_sync: returns a copy of the entry, if any.
#[verifier::external_body]
pub fn cm_get(m: &scc::HashMap<u32, Client>, k: u32) -> (r: Option<Client>)
    ensures
        r is Some <==> cm_contents(*m).dom().contains(k),
        r matches Some(v) ==> v == cm_contents(*m)[k],
{
    m.read_sync(&k, |_, v| v.clone())
}

/// Relies on scc::HashMap::len: the number of entries.
#[verifier::external_body]
pub fn cm_len(m: &scc::HashMap<u32, Client>) -> (r: usize)
    ensures
        cm_contents(*m).dom().finite() ==> r == cm_contents(*m).dom().len(),
{
    m.len()
}

/// Relies on scc::HashMap::iter_sync: visits every entry exactly once.
#[verifier::external_body]
pub fn cm_keys(m: &scc::HashMap<u32, Client>) -> (r: Vec<u32>)
    ensures
        r@.no_duplicates(),
        forall|k: u32| r@.contains(k) <==> cm_contents(*m).dom().contains(k),
{
    let mut out: Vec<u32> = Vec::new();
    m.iter_sync(|k, _| {
        out.push(*k);
        true
    });
    out
}

/// What the channel map holds.
pub uninterp spec fn chm_contents(m: scc::HashMap<u32, Channel>) -> Map<u32, Channel>;

/// Relies on scc::HashMap::new: a fresh map is empty.
#[verifier::external_body]
pub fn chm_new() -> (r: scc::HashMap<u32, Channel>)
    ensures
        forall|k: u32| !chm_contents(r).dom().contains(k),
{
    scc::HashMap::new()
}

/// Relies on scc::HashMap::upsert_sync: inserts or overwrites the entry.
#[verifier::external_body]
pub fn chm_insert(m: &mut scc::HashMap<u32, Channel>, k: u32, v: Channel)
    ensures
        chm_contents(*final(m)) == chm_contents(*old(m)).insert(k, v),
{
    m.upsert_sync(k, v);
}

/// Relies on scc::HashMap::remove_sync: removes the entry, if any.
#[verifier::external_body]
pub fn chm_remove(m: &mut scc::HashMap<u32, Channel>, k: u32)
    ensures
        chm_contents(*final(m)) == chm_contents(*old(m)).remove(k),
{
    m.remove_sync(&k);
}

/// Relies on scc::HashMap::read_sync: returns a copy of the entry, if any.
#[verifier::external_body]
pub fn chm_get(m: &scc::HashMap<u32, Channel>, k: u32) -> (r: Option<Channel>)
    ensures
        r is Some <==> chm_contents(*m).dom().contains(k),
        r matches Some(v) ==> v == chm_contents(*m)[k],
{
    m.read_sync(&k, |_, v| v.clone())
}

/// Relies on scc::HashMap::contains_sync: whether the key is present.
#[verifier::external_body]
pub fn chm_contains(m: &scc::HashMap<u32, Channel>, k: u32) -> (r: bool)
    ensures
        r == chm_contents(*m).dom().contains(k),
{
    m.contains_sync(&k)
}

/// Relies on scc::HashMap::len: the number of entries.
#[verifier::external_body]
pub fn chm_len(m: &scc::HashMap<u32, Channel>) -> (r: usize)
    ensures
        chm_contents(*m).dom().finite() ==> r == chm_contents(*m).dom().len(),
{
    m.len()
}

/// Relies on scc::HashMap::iter_sync: visits every entry exactly once.
#[verifier::external_body]
pub fn chm_keys(m: &scc::HashMap<u32, Channel>) -> (r: Vec<u32>)
    ensures
        r@.no_duplicates(),
        forall|k: u32| r@.contains(k) <==> chm_contents(*m).dom().contains(k),
{
    let mut out: Vec<u32> = Vec::new();
    m.iter_sync(|k, _| {
        out.push(*k);
        true
    });
    out
}

/// What the socket index holds.
pub uninterp spec fn sockm_contents(m: scc::HashMap<UdpAddr, u32>) -> Map<UdpAddr, u32>;

/// Relies on scc::HashMap::new: a fresh map is empty.
#[verifier::external_body]
pub fn sockm_new() -> (r: scc::HashMap<UdpAddr, u32>)
    ensures
        forall|k: UdpAddr| !sockm_contents(r).dom().contains(k),
{
    scc::HashMap::new()
}

/// Relies on scc::HashMap::upsert_sync: inserts or overwrites the entry.
#[verifier::external_body]
pub fn sockm_insert(m: &mut scc::HashMap<UdpAddr, u32>, k: UdpAddr, v: u32)
    ensures
        sockm_contents(*final(m)) == sockm_contents(*old(m)).insert(k, v),
{
    m.upsert_sync(k, v);
}

/// Relies on scc::HashMap::remove_sync: removes the entry, if any.
#[verifier::external_body]
pub fn sockm_remove(m: &mut scc::HashMap<UdpAddr, u32>, k: UdpAddr)
    ensures
        sockm_contents(*final(m)) == sockm_contents(*old(m)).remove(k),
{
    m.remove_sync(&k);
}

/// Relies on scc::HashMap::read_sync: returns a copy of the entry, if any.
#[verifier::external_body]
pub fn sockm_get(m: &scc::HashMap<UdpAddr, u32>, k: UdpAddr) -> (r: Option<u32>)
    ensures
        r is Some <==> sockm_contents(*m).dom().contains(k),
        r matches Some(v) ==> v == sockm_contents(*m)[k],
{
    m.read_sync(&k, |_, v| *v)
}

/// What the awaiting-UDP index holds: each key maps to itself.
pub uninterp spec fn am_contents(m: scc::HashMap<u32, u32>) -> Map<u32, u32>;

/// Relies on scc::HashMap::new: a fresh map is empty.
#[verifier::external_body]
pub fn am_new() -> (r: scc::HashMap<u32, u32>)
    ensures
        forall|k: u32| !am_contents(r).dom().contains(k),
{
    scc::HashMap::new()
}

/// Relies on scc::HashMap::upsert_sync: inserts or overwrites the entry.
#[verifier::external_body]
pub fn am_insert(m: &mut scc::HashMap<u32, u32>, k: u32, v: u32)
    ensures
        am_contents(*final(m)) == am_contents(*old(m)).insert(k, v),
{
    m.upsert_sync(k, v);
}

/// Relies on scc::HashMap::remove_sync: removes the entry, if any.
#[verifier::external_body]
pub fn am_remove(m: &mut scc::HashMap<u32, u32>, k: u32)
    ensures
        am_contents(*final(m)) == am_contents(*old(m)).remove(k),
{
    m.remove_sync(&k);
}

/// Relies on scc::HashMap::contains_sync: whether the key is present.
#[verifier::external_body]
pub fn am_contains(m: &scc::HashMap<u32, u32>, k: u32) -> (r: bool)
    ensures
        r == am_contents(*m).dom().contains(k),
{
    m.contains_sync(&k)
}

/// Relies on scc::HashMap::iter_sync: visits every entry exactly once.
#[verifier::external_body]
pub fn am_keys(m: &scc::HashMap<u32, u32>) -> (r: Vec<u32>)
    ensures
        r@.no_duplicates(),
        forall|k: u32| r@.contains(k) <==> am_contents(*m).dom().contains(k),
{
    let mut out: Vec<u32> = Vec::new();
    m.iter_sync(|k, _| {
        out.push(*k);
        true
    });
    out
}

} // verus!
