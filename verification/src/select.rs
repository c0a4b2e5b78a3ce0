//! Which files belong in the bundle: a path qualifies when its file name is
//! the manifest file name or its extension is on the allow-list, and it does
//! not lie under one of a few heavy generated or internal directories.
//! Ignore-rule filtering happens before these paths are seen (the
//! version-control listing already leaves ignored files out); this module
//! decides the extension, manifest-name, and deny-list policy.

use vstd::prelude::*;

use crate::paths::{
    bytes_eq, clone_bytes, extension_bytes, extension_of, file_name_bytes, file_name_of, subvec,
    SLASH,
};
use crate::record::{manifest_file_name, manifest_file_name_bytes};

verus! {

/// The source-file extension included by default.
pub open spec fn rust_extension() -> Seq<u8> {
    seq!['r' as u8, 's' as u8]
}

/// The manifest-file extension included by default.
pub open spec fn toml_extension() -> Seq<u8> {
    seq!['t' as u8, 'o' as u8, 'm' as u8, 'l' as u8]
}

/// Bytes of the default source-file extension.
pub fn rust_extension_bytes() -> (r: Vec<u8>)
    ensures
        r@ == rust_extension(),
{
    let mut v: Vec<u8> = Vec::new();
    v.push('r' as u8);
    v.push('s' as u8);
    proof {
        assert(v@ =~= rust_extension());
    }
    v
}

/// Bytes of the manifest-file extension.
pub fn toml_extension_bytes() -> (r: Vec<u8>)
    ensures
        r@ == toml_extension(),
{
    let mut v: Vec<u8> = Vec::new();
    v.push('t' as u8);
    v.push('o' as u8);
    v.push('m' as u8);
    v.push('l' as u8);
    proof {
        assert(v@ =~= toml_extension());
    }
    v
}

/// The allow-list actually used for a run: the default pair when the user
/// named no extensions, and otherwise the user's list, with the manifest
/// extension appended if it is missing so workspace manifests stay included.
pub open spec fn spec_effective_extensions(user: Seq<Seq<u8>>) -> Seq<Seq<u8>> {
    if user.len() == 0 {
        seq![rust_extension(), toml_extension()]
    } else if user.contains(toml_extension()) {
        user
    } else {
        user.push(toml_extension())
    }
}

/// Compute the allow-list used for a run from the user's extension list.
pub fn effective_extensions(user: &Vec<Vec<u8>>) -> (r: Vec<Vec<u8>>)
    ensures
        r.deep_view() == spec_effective_extensions(user.deep_view()),
{
    let ghost uv = user.deep_view();
    if user.len() == 0 {
        let mut r: Vec<Vec<u8>> = Vec::new();
        r.push(rust_extension_bytes());
        r.push(toml_extension_bytes());
        proof {
            assert(r.deep_view() =~~= spec_effective_extensions(uv));
        }
        r
    } else {
        let toml = toml_extension_bytes();
        let mut r: Vec<Vec<u8>> = Vec::new();
        let mut has_toml = false;
        let mut i: usize = 0;
        while i < user.len()
            invariant
                i <= user.len(),
                uv == user.deep_view(),
                toml@ == toml_extension(),
                r@.len() == i,
                forall|j: int| 0 <= j < i ==> r@[j]@ == uv[j],
                has_toml == exists|j: int| 0 <= j < i && uv[j] == toml_extension(),
            decreases user.len() - i,
        {
            let e = clone_bytes(&user[i]);
            proof {
                assert(uv[i as int] =~= user@[i as int]@);
            }
            if bytes_eq(&e, &toml) {
                has_toml = true;
            }
            r.push(e);
            i = i + 1;
        }
        if has_toml {
            proof {
                assert(uv.contains(toml_extension()));
                assert(r.deep_view() =~~= uv);
            }
            r
        } else {
            proof {
                assert(!uv.contains(toml_extension()));
            }
            r.push(toml);
            proof {
                assert(r.deep_view() =~~= uv.push(toml_extension()));
            }
            r
        }
    }
}

/// Name of the build-output directory that is never walked into.
pub open spec fn build_output_dir() -> Seq<u8> {
    seq!['t' as u8, 'a' as u8, 'r' as u8, 'g' as u8, 'e' as u8, 't' as u8]
}

/// Name of the version-control internal directory.
pub open spec fn vcs_internal_dir() -> Seq<u8> {
    seq!['.' as u8, 'g' as u8, 'i' as u8, 't' as u8]
}

/// Name of the vendored dependency-cache directory.
pub open spec fn dependency_cache_dir() -> Seq<u8> {
    seq![
        'n' as u8,
        'o' as u8,
        'd' as u8,
        'e' as u8,
        '_' as u8,
        'm' as u8,
        'o' as u8,
        'd' as u8,
        'u' as u8,
        'l' as u8,
        'e' as u8,
        's' as u8,
    ]
}

/// The built-in deny-list: directory names whose contents stay out of the
/// bundle however they are ignored or tracked, to bound the output.
pub open spec fn denied_dir_names() -> Seq<Seq<u8>> {
    seq![build_output_dir(), vcs_internal_dir(), dependency_cache_dir()]
}

/// Bytes of the built-in deny-list.
pub fn denied_dir_names_bytes() -> (r: Vec<Vec<u8>>)
    ensures
        r.deep_view() == denied_dir_names(),
{
    let mut target: Vec<u8> = Vec::new();
    target.push('t' as u8);
    target.push('a' as u8);
    target.push('r' as u8);
    target.push('g' as u8);
    target.push('e' as u8);
    target.push('t' as u8);
    let mut vcs: Vec<u8> = Vec::new();
    vcs.push('.' as u8);
    vcs.push('g' as u8);
    vcs.push('i' as u8);
    vcs.push('t' as u8);
    let mut deps: Vec<u8> = Vec::new();
    deps.push('n' as u8);
    deps.push('o' as u8);
    deps.push('d' as u8);
    deps.push('e' as u8);
    deps.push('_' as u8);
    deps.push('m' as u8);
    deps.push('o' as u8);
    deps.push('d' as u8);
    deps.push('u' as u8);
    deps.push('l' as u8);
    deps.push('e' as u8);
    deps.push('s' as u8);
    proof {
        assert(target@ =~= build_output_dir());
        assert(vcs@ =~= vcs_internal_dir());
        assert(deps@ =~= dependency_cache_dir());
    }
    let mut r: Vec<Vec<u8>> = Vec::new();
    r.push(target);
    r.push(vcs);
    r.push(deps);
    proof {
        assert(r.deep_view() =~~= denied_dir_names());
    }
    r
}

/// Whether the path lies under a directory on the deny-list: some proper
/// directory prefix of the path is named like a denied directory.
pub open spec fn in_denied_dir(p: Seq<u8>) -> bool {
    exists|k: int|
        0 <= k < p.len() && p[k] == SLASH && denied_dir_names().contains(
            #[trigger] file_name_of(p.subrange(0, k)),
        )
}

/// Whether a file name is on a list of names.
pub fn name_in_list(name: &Vec<u8>, list: &Vec<Vec<u8>>) -> (r: bool)
    ensures
        r == list.deep_view().contains(name@),
{
    let ghost lv = list.deep_view();
    let mut i: usize = 0;
    while i < list.len()
        invariant
            i <= list.len(),
            lv == list.deep_view(),
            forall|j: int| 0 <= j < i ==> lv[j] != name@,
        decreases list.len() - i,
    {
        proof {
            assert(lv[i as int] =~= list@[i as int]@);
        }
        if bytes_eq(&list[i], name) {
            proof {
                assert(lv.contains(name@));
            }
            return true;
        }
        i = i + 1;
    }
    proof {
        assert(!lv.contains(name@));
    }
    false
}

/// Decide whether the path lies under a denied directory.
pub fn path_in_denied_dir(p: &Vec<u8>) -> (r: bool)
    ensures
        r == in_denied_dir(p@),
{
    let denied = denied_dir_names_bytes();
    let mut k: usize = 0;
    while k < p.len()
        invariant
            k <= p.len(),
            denied.deep_view() == denied_dir_names(),
            forall|j: int|
                0 <= j < k ==> !(p@[j] == SLASH && denied_dir_names().contains(
                    #[trigger] file_name_of(p@.subrange(0, j)),
                )),
        decreases p.len() - k,
    {
        if p[k] == SLASH {
            let prefix = subvec(p, 0, k);
            let name = file_name_bytes(&prefix);
            if name_in_list(&name, &denied) {
                return true;
            }
        }
        k = k + 1;
    }
    false
}

/// Whether one path belongs in the bundle, given the extension allow-list:
/// nothing under a denied directory does; a manifest file otherwise always
/// does; any other file exactly when it has an extension on the list.
pub open spec fn is_candidate_path(p: Seq<u8>, exts: Seq<Seq<u8>>) -> bool {
    !in_denied_dir(p) && (file_name_of(p) == manifest_file_name() || match extension_of(
        file_name_of(p),
    ) {
        Some(e) => exts.contains(e),
        None => false,
    })
}

/// `is_candidate_path` as a predicate value over a fixed allow-list.
pub open spec fn candidate_pred(exts: Seq<Seq<u8>>) -> spec_fn(Seq<u8>) -> bool {
    |p: Seq<u8>| is_candidate_path(p, exts)
}

/// The candidate files among `paths`, in their given order.
pub open spec fn spec_candidates(paths: Seq<Seq<u8>>, exts: Seq<Seq<u8>>) -> Seq<Seq<u8>> {
    paths.filter(candidate_pred(exts))
}

/// A file named like a manifest, outside the denied directories, is a
/// candidate whatever the allow-list says.
pub proof fn lemma_manifest_always_candidate(p: Seq<u8>, exts: Seq<Seq<u8>>)
    requires
        file_name_of(p) == manifest_file_name(),
        !in_denied_dir(p),
    ensures
        is_candidate_path(p, exts),
{
}

/// Decide whether one path belongs in the bundle.
pub fn is_candidate(p: &Vec<u8>, exts: &Vec<Vec<u8>>) -> (r: bool)
    ensures
        r == is_candidate_path(p@, exts.deep_view()),
{
    if path_in_denied_dir(p) {
        return false;
    }
    let name = file_name_bytes(p);
    let mani = manifest_file_name_bytes();
    if bytes_eq(&name, &mani) {
        return true;
    }
    match extension_bytes(&name) {
        None => false,
        Some(e) => name_in_list(&e, exts),
    }
}

/// Keep the candidate files among `paths`, in their given order.
pub fn select_candidates(paths: &Vec<Vec<u8>>, exts: &Vec<Vec<u8>>) -> (r: Vec<Vec<u8>>)
    ensures
        r.deep_view() == spec_candidates(paths.deep_view(), exts.deep_view()),
{
    let ghost pv = paths.deep_view();
    let ghost pred = candidate_pred(exts.deep_view());
    let mut r: Vec<Vec<u8>> = Vec::new();
    let mut i: usize = 0;
    proof {
        reveal_with_fuel(Seq::<Seq<u8>>::filter, 2);
        assert(r.deep_view() =~~= pv.take(0).filter(pred));
    }
    while i < paths.len()
        invariant
            i <= paths.len(),
            pv == paths.deep_view(),
            pred == candidate_pred(exts.deep_view()),
            r.deep_view() == pv.take(i as int).filter(pred),
        decreases paths.len() - i,
    {
        proof {
            reveal_with_fuel(Seq::<Seq<u8>>::filter, 2);
            assert(pv[i as int] =~= paths@[i as int]@);
            assert(pv.take(i as int + 1).drop_last() =~= pv.take(i as int));
            assert(pv.take(i as int + 1).last() == pv[i as int]);
        }
        if is_candidate(&paths[i], exts) {
            let c = clone_bytes(&paths[i]);
            r.push(c);
            proof {
                reveal_with_fuel(Seq::<Seq<u8>>::filter, 2);
                assert(r.deep_view() =~~= pv.take(i as int).filter(pred).push(pv[i as int]));
                assert(pv.take(i as int + 1).filter(pred) == pv.take(i as int).filter(pred).push(
                    pv[i as int],
                ));
            }
        } else {
            proof {
                reveal_with_fuel(Seq::<Seq<u8>>::filter, 2);
                assert(pv.take(i as int + 1).filter(pred) == pv.take(i as int).filter(pred));
            }
        }
        i = i + 1;
    }
    proof {
        assert(pv.take(paths@.len() as int) =~= pv);
    }
    r
}

} // verus!
