//! One sync: the upload and delete plan and the repaired manifest, from the
//! remote keys, the local pairs, the manifest and the configured subset.
use vstd::prelude::*;
use crate::key_set::{KeySet, keys_in_subset, subset_keys, subset_of, views_of};
use crate::manifest::{AssetManifest, patch_manifest, patched};
use crate::reconcile::{KeyValuePair, local_subset, reconcile, reconcile_plan};

verus! {

/// The subset string of a configuration: empty when none is set.
pub open spec fn subset_path(subset: Option<String>) -> Seq<char> {
    match subset {
        Some(s) => s@,
        None => Seq::empty(),
    }
}

/// Plans one sync of `pairs` (the local asset tree) against `remote_keys`
/// (the namespace's keys) within `subset`: the pairs to upload, the keys to
/// delete, and `asset_manifest` with its entries outside the subset repaired.
pub fn sync(
    pairs: Vec<KeyValuePair>,
    remote_keys: &KeySet,
    asset_manifest: AssetManifest,
    subset: Option<String>,
) -> (r: (Vec<KeyValuePair>, Vec<String>, AssetManifest))
    requires
        remote_keys.wf(),
    ensures
        (r.0@, views_of(r.1@)) == reconcile_plan(
            pairs@,
            keys_in_subset(remote_keys.key_seq(), subset_path(subset)),
            subset_path(subset),
        ),
        views_of(r.1@).to_set() == subset_of(remote_keys@, subset_path(subset)).difference(
            local_subset(pairs@, subset_path(subset)),
        ),
        r.2@ == patched(asset_manifest@, remote_keys.key_seq(), subset_path(subset)),
        asset_manifest.wf() ==> r.2.wf(),
{
    let subset_str = match &subset {
        Some(s) => s.as_str(),
        None => "",
    };
    proof {
        reveal_strlit("");
        assert(subset_str@ =~= subset_path(subset));
    }
    let remote_subset = subset_keys(remote_keys, subset_str);
    let (to_upload, to_delete) = reconcile(pairs, &remote_subset, subset_str);
    let mut asset_manifest = asset_manifest;
    patch_manifest(&mut asset_manifest, remote_keys, subset_str);
    (to_upload, to_delete, asset_manifest)
}

} // verus!
