//! Checks the workspace-list file against the packages actually on disk.
//!
//! The caller hands over the package names the workspace list declares, and
//! the names of the manifests a directory walk found. Only the discovered
//! names inside the `@bitgo/` scope take part. Every name that appears on one
//! side but not the other is reported.

use vstd::prelude::*;

use crate::text::contains_seq;
use crate::text::contains_str;
use crate::text::contains_string;
use crate::text::contains_substring;
use crate::text::distinct_views;

verus! {

/// A package name found on only one side.
#[derive(Debug)]
pub struct DifferentManifestEntry {
    pub key: String,
    pub in_lerna_manifest: bool,
}

/// Why the workspace list disagrees with the directory walk.
#[derive(Debug)]
pub enum LernaManifestLintError {
    DifferentManifestEntries(Vec<DifferentManifestEntry>),
}

/// Whether `n` is a discovered name that takes part in the comparison.
pub open spec fn discovered_in_scope(discovered: Seq<String>, n: Seq<char>) -> bool {
    contains_str(discovered, n) && contains_seq(n, "@bitgo/"@)
}

/// Compares the workspace list against discovery: succeeds exactly when the
/// declared names and the discovered in-scope names agree; otherwise reports
/// every name on only one side, flagged with the side it came from.
#[verifier::loop_isolation(false)]
pub fn lint_lerna_manifest(
    lerna_manifest_package_names: &Vec<String>,
    discovered_package_names: &Vec<String>,
) -> (r: Result<(), LernaManifestLintError>)
    requires
        distinct_views(lerna_manifest_package_names@),
        distinct_views(discovered_package_names@),
    ensures
        r is Ok <==> (forall|n: Seq<char>|
            #[trigger] contains_str(lerna_manifest_package_names@, n) == discovered_in_scope(
                discovered_package_names@,
                n,
            )),
        r matches Err(LernaManifestLintError::DifferentManifestEntries(es)) ==> es@.len() > 0 && (
        forall|k: int|
            0 <= k < es@.len() ==> ((#[trigger] es@[k]).in_lerna_manifest ==> (contains_str(
                lerna_manifest_package_names@,
                es@[k].key@,
            ) && !discovered_in_scope(discovered_package_names@, es@[k].key@))) && (!es@[k].in_lerna_manifest
                ==> (!contains_str(lerna_manifest_package_names@, es@[k].key@)
                && discovered_in_scope(discovered_package_names@, es@[k].key@)))),
{
    let lerna = lerna_manifest_package_names;
    let discovered = discovered_package_names;
    let mut entries: Vec<DifferentManifestEntry> = Vec::new();
    let mut i: usize = 0;
    while i < lerna.len()
        invariant
            0 <= i <= lerna@.len(),
            forall|k: int|
                0 <= k < entries@.len() ==> ((#[trigger] entries@[k]).in_lerna_manifest
                    && contains_str(lerna@, entries@[k].key@) && !discovered_in_scope(
                    discovered@,
                    entries@[k].key@,
                )),
            (entries@.len() == 0) <==> (forall|k: int|
                0 <= k < i ==> discovered_in_scope(discovered@, (#[trigger] lerna@[k])@)),
        decreases lerna@.len() - i,
    {
        let name = &lerna[i];
        let in_scope = contains_string(discovered, name.as_str()) && contains_substring(
            name.as_str(),
            "@bitgo/",
        );
        if !in_scope {
            proof {
                assert(contains_str(lerna@, lerna@[i as int]@));
            }
            entries.push(DifferentManifestEntry { key: name.clone(), in_lerna_manifest: true });
        }
        i = i + 1;
    }
    let ghost lerna_side_clean = entries@.len() == 0;
    let mut i: usize = 0;
    while i < discovered.len()
        invariant
            0 <= i <= discovered@.len(),
            lerna_side_clean == (forall|k: int|
                0 <= k < lerna@.len() ==> discovered_in_scope(discovered@, (#[trigger] lerna@[k])@)),
            forall|k: int|
                0 <= k < entries@.len() ==> ((#[trigger] entries@[k]).in_lerna_manifest ==> (
                contains_str(lerna@, entries@[k].key@) && !discovered_in_scope(
                    discovered@,
                    entries@[k].key@,
                ))) && (!entries@[k].in_lerna_manifest ==> (!contains_str(
                    lerna@,
                    entries@[k].key@,
                ) && discovered_in_scope(discovered@, entries@[k].key@))),
            (entries@.len() == 0) <==> (lerna_side_clean && (forall|k: int|
                0 <= k < i ==> (discovered_in_scope(discovered@, (#[trigger] discovered@[k])@)
                    ==> contains_str(lerna@, discovered@[k]@)))),
        decreases discovered@.len() - i,
    {
        let name = &discovered[i];
        let in_scope = contains_substring(name.as_str(), "@bitgo/");
        if in_scope && !contains_string(lerna, name.as_str()) {
            proof {
                assert(contains_str(discovered@, discovered@[i as int]@));
                assert(discovered_in_scope(discovered@, discovered@[i as int]@));
            }
            entries.push(DifferentManifestEntry { key: name.clone(), in_lerna_manifest: false });
        }
        i = i + 1;
    }
    if entries.is_empty() {
        proof {
            assert forall|n: Seq<char>|
                #[trigger] contains_str(lerna@, n) == discovered_in_scope(discovered@, n) by {
                if contains_str(lerna@, n) {
                    let w = choose|w: int| 0 <= w < lerna@.len() && lerna@[w]@ == n;
                    assert(discovered_in_scope(discovered@, lerna@[w]@));
                }
                if discovered_in_scope(discovered@, n) {
                    let w = choose|w: int| 0 <= w < discovered@.len() && discovered@[w]@ == n;
                    assert(discovered_in_scope(discovered@, discovered@[w]@));
                    assert(contains_str(lerna@, discovered@[w]@));
                }
            }
        }
        Ok(())
    } else {
        proof {
            if forall|n: Seq<char>|
                #[trigger] contains_str(lerna@, n) == discovered_in_scope(discovered@, n) {
                assert forall|k: int|
                    0 <= k < lerna@.len() implies discovered_in_scope(
                    discovered@,
                    (#[trigger] lerna@[k])@,
                ) by {
                    assert(contains_str(lerna@, lerna@[k]@));
                }
                assert(false);
            }
        }
        Err(LernaManifestLintError::DifferentManifestEntries(entries))
    }
}

} // verus!
