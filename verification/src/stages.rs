//! The file-mutating stages of one package update, verified over the tree
//! model: diff-patch bookkeeping, deletion processing and the final merge.
//!
//! The unverified shell mirrors each mutation onto the real filesystem; the
//! contracts here say exactly which files every stage creates, overwrites,
//! removes and leaves alone.

use vstd::prelude::*;
use crate::paths::{hdiff_name, is_merge_skipped, spec_is_merge_skipped};
use crate::bytes::{delete_list_name, patch_list_name, spec_delete_list_name, spec_hdiff_suffix, spec_patch_list_name};
use crate::manifest::{read_delete_list, spec_delete_names};
use crate::tree::Tree;

verus! {

/// The views of a list of paths.
pub open spec fn spec_path_views(paths: Seq<Vec<u8>>) -> Seq<Seq<u8>> {
    paths.map_values(|p: Vec<u8>| p@)
}

/// Whether the patch stage applies the diff for `name` or skips the entry:
/// a missing target is skipped with a warning, never fatal.
pub fn patch_applies(install: &Tree, name: &[u8]) -> (r: bool)
    requires
        install.wf(),
    ensures
        r == install@.contains_key(name@),
{
    install.contains(name)
}

/// Records one successful diff application in the scratch tree: the patched
/// bytes land beside the plain replacement files under the target's own
/// name — the later merge carries them into the install tree — and the
/// consumed diff blob is removed at once.
pub fn commit_patch(scratch: &mut Tree, name: &[u8], patched: Vec<u8>)
    requires
        old(scratch).wf(),
    ensures
        final(scratch).wf(),
        final(scratch)@ == old(scratch)@.insert(name@, patched@).remove(
            name@ + spec_hdiff_suffix(),
        ),
{
    let blob = hdiff_name(name);
    scratch.insert(vstd::slice::slice_to_vec(name), patched);
    scratch.remove(blob.as_slice());
}

/// What one deletion pass leaves: exactly the files whose paths are not
/// listed, each with its contents untouched.
pub open spec fn spec_deletions_applied(
    before: Map<Seq<u8>, Seq<u8>>,
    after: Map<Seq<u8>, Seq<u8>>,
    deletes: Seq<Seq<u8>>,
) -> bool {
    &&& forall|k: Seq<u8>|
        #[trigger] after.contains_key(k) <==> before.contains_key(k) && !deletes.contains(k)
    &&& forall|k: Seq<u8>| #[trigger] after.contains_key(k) ==> after[k] == before[k]
}

/// Deletion processor: removes every listed path from the install tree.  A
/// path already absent is skipped silently — absence is not an error.
pub fn process_deletions(install: &mut Tree, deletes: &Vec<Vec<u8>>)
    requires
        old(install).wf(),
    ensures
        final(install).wf(),
        spec_deletions_applied(old(install)@, final(install)@, spec_path_views(deletes@)),
{
    let n = deletes.len();
    let mut i: usize = 0;
    while i < n
        invariant
            i <= n == deletes@.len(),
            install.wf(),
            forall|k: Seq<u8>| #[trigger]
                install@.contains_key(k) <==> old(install)@.contains_key(k)
                    && !spec_path_views(deletes@).take(i as int).contains(k),
            forall|k: Seq<u8>| #[trigger]
                install@.contains_key(k) ==> install@[k] == old(install)@[k],
        decreases n - i,
    {
        let ghost pre = install@;
        install.remove(deletes[i].as_slice());
        proof {
            let dv = spec_path_views(deletes@);
            assert(dv[i as int] == deletes@[i as int]@);
            assert forall|k: Seq<u8>| #[trigger] install@.contains_key(k) <==> old(
                install,
            )@.contains_key(k) && !dv.take(i + 1).contains(k) by {
                assert(install@.contains_key(k) <==> pre.contains_key(k) && k != dv[i as int]);
                if dv.take(i + 1).contains(k) {
                    let x = choose|x: int| 0 <= x < i + 1 && #[trigger] dv.take(i + 1)[x] == k;
                    if x < i {
                        assert(dv.take(i as int)[x] == k);
                        assert(dv.take(i as int).contains(k));
                    }
                }
                if dv.take(i as int).contains(k) {
                    let x = choose|x: int| 0 <= x < i && #[trigger] dv.take(i as int)[x] == k;
                    assert(dv.take(i + 1)[x] == k);
                    assert(dv.take(i + 1).contains(k));
                }
                if k == dv[i as int] {
                    assert(dv.take(i + 1)[i as int] == k);
                    assert(dv.take(i + 1).contains(k));
                }
            }
        }
        i = i + 1;
    }
    proof {
        assert(spec_path_views(deletes@).take(n as int) =~= spec_path_views(deletes@));
    }
}

/// Deletion idempotence: one pass removes every listed path, so a second
/// pass over the same list finds every target already absent and leaves the
/// tree exactly as the first pass left it.
pub proof fn lemma_deletion_idempotent(
    t0: Map<Seq<u8>, Seq<u8>>,
    t1: Map<Seq<u8>, Seq<u8>>,
    t2: Map<Seq<u8>, Seq<u8>>,
    deletes: Seq<Seq<u8>>,
)
    requires
        spec_deletions_applied(t0, t1, deletes),
        spec_deletions_applied(t1, t2, deletes),
    ensures
        t2 == t1,
        forall|d: Seq<u8>| deletes.contains(d) ==> !t1.contains_key(d),
{
    assert forall|k: Seq<u8>| t2.contains_key(k) implies t2[k] == t1[k] by {}
    assert(t2 =~= t1);
}

/// What the merge leaves: every scratch file that the filter admits stands
/// in the install tree with the scratch contents — overwriting whatever was
/// there — and every other install file is untouched.
pub open spec fn spec_merged(
    before: Map<Seq<u8>, Seq<u8>>,
    scratch: Map<Seq<u8>, Seq<u8>>,
    after: Map<Seq<u8>, Seq<u8>>,
) -> bool {
    &&& forall|k: Seq<u8>|
        #[trigger] after.contains_key(k) <==> before.contains_key(k) || (scratch.contains_key(k)
            && !spec_is_merge_skipped(k))
    &&& forall|k: Seq<u8>|
        scratch.contains_key(k) && !spec_is_merge_skipped(k) ==> #[trigger] after[k] == scratch[k]
    &&& forall|k: Seq<u8>|
        #[trigger] after.contains_key(k) && !(scratch.contains_key(k) && !spec_is_merge_skipped(k))
            ==> after[k] == before[k]
}

/// File merger: copies every remaining extracted file into the install tree,
/// overwriting files already there; control files and diff blobs are never
/// merged verbatim.
pub fn merge(install: &mut Tree, scratch: &Tree)
    requires
        old(install).wf(),
        scratch.wf(),
    ensures
        final(install).wf(),
        spec_merged(old(install)@, scratch@, final(install)@),
{
    let n = scratch.len();
    let mut i: usize = 0;
    while i < n
        invariant
            i <= n == scratch.keys().len(),
            install.wf(),
            scratch.wf(),
            forall|k: Seq<u8>| #[trigger]
                install@.contains_key(k) <==> old(install)@.contains_key(k) || (
                scratch.keys().take(i as int).contains(k) && scratch@.contains_key(k)
                    && !spec_is_merge_skipped(k)),
            forall|k: Seq<u8>| #![trigger scratch@[k]]
                scratch.keys().take(i as int).contains(k) && scratch@.contains_key(k)
                    && !spec_is_merge_skipped(k) ==> install@.contains_key(k)
                    && install@[k] == scratch@[k],
            forall|k: Seq<u8>| #[trigger]
                install@.contains_key(k) && !(scratch.keys().take(i as int).contains(k)
                    && scratch@.contains_key(k) && !spec_is_merge_skipped(k)) ==> install@[k]
                    == old(install)@[k],
        decreases n - i,
    {
        let path = scratch.path_at(i);
        let ghost kv = scratch.keys()[i as int];
        proof {
            scratch.lemma_keys_complete();
        }
        let ghost pre = install@;
        if !is_merge_skipped(path.as_slice()) {
            let data = scratch.data_at(i);
            let path_copy = vstd::slice::slice_to_vec(path.as_slice());
            let data_copy = vstd::slice::slice_to_vec(data.as_slice());
            install.insert(path_copy, data_copy);
        }
        proof {
            let tk1 = scratch.keys().take(i + 1);
            let tk0 = scratch.keys().take(i as int);
            assert forall|k: Seq<u8>| #[trigger] tk1.contains(k) implies tk0.contains(k) || k
                == kv by {
                let x = choose|x: int| 0 <= x < tk1.len() && #[trigger] tk1[x] == k;
                if x < i {
                    assert(tk0[x] == k);
                }
            }
            assert forall|k: Seq<u8>| #[trigger] tk0.contains(k) implies tk1.contains(k) by {
                let x = choose|x: int| 0 <= x < tk0.len() && #[trigger] tk0[x] == k;
                assert(tk1[x] == k);
            }
            assert(tk1[i as int] == kv);
            assert(tk1.contains(kv));
            assert(scratch@.contains_key(kv));
            if !spec_is_merge_skipped(kv) {
                assert(install@ == pre.insert(kv, scratch@[kv]));
            } else {
                assert(install@ == pre);
            }
            assert forall|k: Seq<u8>| #[trigger] install@.contains_key(k) <==> old(
                install,
            )@.contains_key(k) || (tk1.contains(k) && scratch@.contains_key(k)
                && !spec_is_merge_skipped(k)) by {}
            assert forall|k: Seq<u8>|
                tk1.contains(k) && scratch@.contains_key(k) && !spec_is_merge_skipped(
                    k,
                ) implies #[trigger] install@.contains_key(k) && install@[k] == scratch@[k] by {
                if k == kv {
                    assert(install@[kv] == scratch@[kv]);
                } else {
                    assert(tk0.contains(k));
                    assert(pre.contains_key(k) && pre[k] == scratch@[k]);
                    assert(install@.contains_key(k) && install@[k] == pre[k]);
                }
            }
            assert forall|k: Seq<u8>| #[trigger]
                install@.contains_key(k) && !(tk1.contains(k) && scratch@.contains_key(k)
                    && !spec_is_merge_skipped(k)) implies install@[k] == old(install)@[k] by {
                assert(k != kv || spec_is_merge_skipped(k));
                assert(!(tk0.contains(k) && scratch@.contains_key(k) && !spec_is_merge_skipped(
                    k,
                )));
            }
        }
        i = i + 1;
    }
    proof {
        scratch.lemma_keys_complete();
        let tkn = scratch.keys().take(n as int);
        assert(tkn =~= scratch.keys());
        assert forall|k: Seq<u8>| #[trigger] install@.contains_key(k) <==> old(
            install,
        )@.contains_key(k) || (scratch@.contains_key(k) && !spec_is_merge_skipped(k)) by {
            if scratch@.contains_key(k) {
                assert(scratch.keys().contains(k));
                assert(tkn.contains(k));
            }
            if tkn.contains(k) {
                assert(scratch.keys().contains(k));
                assert(scratch@.contains_key(k));
            }
        }
        assert forall|k: Seq<u8>|
            scratch@.contains_key(k) && !spec_is_merge_skipped(k) implies #[trigger] install@[k]
            == scratch@[k] by {
            assert(scratch.keys().contains(k));
            assert(tkn.contains(k));
            assert(install@.contains_key(k) && install@[k] == scratch@[k]);
        }
        assert forall|k: Seq<u8>| #[trigger]
            install@.contains_key(k) && !(scratch@.contains_key(k) && !spec_is_merge_skipped(
                k,
            )) implies install@[k] == old(install)@[k] by {
            if tkn.contains(k) {
                assert(scratch.keys().contains(k));
                assert(scratch@.contains_key(k));
            }
            assert(!(tkn.contains(k) && scratch@.contains_key(k) && !spec_is_merge_skipped(k)));
        }
    }
}

/// The tree left by one deletion pass over `before` with the listed paths.
pub open spec fn spec_after_deletions(
    before: Map<Seq<u8>, Seq<u8>>,
    deletes: Seq<Seq<u8>>,
) -> Map<Seq<u8>, Seq<u8>> {
    Map::new(
        |k: Seq<u8>| before.contains_key(k) && !deletes.contains(k),
        |k: Seq<u8>| before[k],
    )
}

/// A deletion pass leaves exactly `spec_after_deletions` of the tree it ran on.
pub proof fn lemma_deletions_applied_unique(
    before: Map<Seq<u8>, Seq<u8>>,
    after: Map<Seq<u8>, Seq<u8>>,
    deletes: Seq<Seq<u8>>,
)
    requires
        spec_deletions_applied(before, after, deletes),
    ensures
        after == spec_after_deletions(before, deletes),
{
    let m = spec_after_deletions(before, deletes);
    assert(m == Map::new(
        |k: Seq<u8>| before.contains_key(k) && !deletes.contains(k),
        |k: Seq<u8>| before[k],
    ));
    assert forall|k: Seq<u8>| #[trigger] after.contains_key(k) <==> m.contains_key(k) by {}
    assert forall|k: Seq<u8>| after.contains_key(k) implies after[k] == m[k] by {
        assert(Map::new(
            |k2: Seq<u8>| before.contains_key(k2) && !deletes.contains(k2),
            |k2: Seq<u8>| before[k2],
        )[k] == before[k]);
    }
    assert(after =~= m);
}

/// The delete names the scratch tree's control file carries; a missing
/// control file contributes zero entries.
pub open spec fn spec_scratch_delete_names(scratch: Map<Seq<u8>, Seq<u8>>) -> Seq<Seq<u8>> {
    if scratch.contains_key(spec_delete_list_name()) {
        spec_delete_names(scratch[spec_delete_list_name()])
    } else {
        Seq::empty()
    }
}

/// The tail of one package update, after the diffs have been applied: reads
/// the delete list from the scratch tree, removes the listed files from the
/// install tree, consumes both control files, and merges what remains of the
/// scratch tree over the install tree.
pub fn finish_package(install: &mut Tree, scratch: &mut Tree)
    requires
        old(install).wf(),
        old(scratch).wf(),
    ensures
        final(install).wf(),
        final(scratch).wf(),
        final(scratch)@ == old(scratch)@.remove(spec_patch_list_name()).remove(
            spec_delete_list_name(),
        ),
        spec_merged(
            spec_after_deletions(old(install)@, spec_scratch_delete_names(old(scratch)@)),
            final(scratch)@,
            final(install)@,
        ),
{
    let delete_list = delete_list_name();
    let patch_list = patch_list_name();
    let deletes = match scratch.get(delete_list.as_slice()) {
        Some(data) => read_delete_list(data.as_slice()),
        None => Vec::new(),
    };
    proof {
        assert(spec_path_views(deletes@) =~= spec_scratch_delete_names(scratch@));
    }
    process_deletions(install, &deletes);
    proof {
        lemma_deletions_applied_unique(
            old(install)@,
            install@,
            spec_path_views(deletes@),
        );
    }
    scratch.remove(patch_list.as_slice());
    scratch.remove(delete_list.as_slice());
    merge(install, scratch);
}

/// Merge overwrite: after a merge, a scratch file the filter admits stands
/// in the install tree byte-identical to the scratch copy, whatever the
/// install tree held at that path before.
pub proof fn lemma_merge_overwrites(
    before: Map<Seq<u8>, Seq<u8>>,
    scratch: Map<Seq<u8>, Seq<u8>>,
    after: Map<Seq<u8>, Seq<u8>>,
    p: Seq<u8>,
)
    requires
        spec_merged(before, scratch, after),
        scratch.contains_key(p),
        !spec_is_merge_skipped(p),
    ensures
        after.contains_key(p),
        after[p] == scratch[p],
{
}

} // verus!
