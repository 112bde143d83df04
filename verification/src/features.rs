//! What the network and updates lines say.
use vstd::prelude::*;
use crate::text::{chars_of, contains, contains_exec, decimal, push_decimal};

verus! {

pub struct FeaturesInfo {
    pub network: String,
    pub updates: String,
}

/// How many of the names contain `sync`.
pub open spec fn sync_count(names: Seq<Seq<char>>) -> nat
    decreases names.len(),
{
    if names.len() == 0 {
        0
    } else {
        sync_count(names.drop_last()) + if contains(names.last(), "sync"@) {
            1nat
        } else {
            0nat
        }
    }
}

/// The updates line: the number of pending updates, `0` when there are none or the package
/// database could not be listed.
pub open spec fn updates_line(names: Option<Seq<Seq<char>>>) -> Seq<char> {
    let count = match names {
        Some(n) => sync_count(n),
        None => 0,
    };
    decimal(count) + " updates available"@
}

/// The network line's value: the local address, or the loopback address.
pub open spec fn network_value(ip: Option<Seq<char>>) -> Seq<char> {
    match ip {
        Some(a) => a,
        None => "127.0.0.1"@,
    }
}

pub open spec fn name_views(v: Seq<String>) -> Seq<Seq<char>> {
    Seq::new(v.len(), |i: int| v[i]@)
}

/// The network and updates lines from the local address (if one was found) and the entry
/// names of pacman's local database (if it could be listed).
pub fn get_features(local_ip: Option<String>, entry_names: Option<&Vec<String>>) -> (f: FeaturesInfo)
    ensures
        f.network@ == network_value(
            match local_ip {
                Some(a) => Some(a@),
                None => None,
            },
        ),
        f.updates@ == updates_line(
            match entry_names {
                Some(n) => Some(name_views(n@)),
                None => None,
            },
        ),
{
    let network = match local_ip {
        Some(a) => a,
        None => String::from_str("127.0.0.1"),
    };
    let mut count: u64 = 0;
    if let Some(names) = entry_names {
        let n = names.len();
        let pat = chars_of("sync");
        for i in 0..n
            invariant
                n == names@.len(),
                pat@ == "sync"@,
                count == sync_count(name_views(names@).take(i as int)),
                count <= i,
        {
            assert(name_views(names@).take(i + 1).drop_last() =~= name_views(names@).take(i as int));
            if contains_exec(&chars_of(names[i].as_str()), &pat) {
                count = count + 1;
            }
        }
        assert(name_views(names@).take(n as int) =~= name_views(names@));
    }
    let mut updates = String::new();
    push_decimal(&mut updates, count);
    updates.append(" updates available");
    FeaturesInfo { network, updates }
}

} // verus!
