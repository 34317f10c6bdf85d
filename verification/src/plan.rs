//! What one synchronisation cycle does, decided from the remote listing and the local scan.
//!
//! Pull (remote to local): each listed key is fetched or skipped, and local files whose object
//! is not listed are deleted. Push (local to remote): each local file is uploaded under its key,
//! and remote objects with no local counterpart are deleted.
use vstd::prelude::*;
use vstd::string::*;

use crate::paths::{
    join_path, path_equal, path_join, path_strip_prefix, same_path, strip_path_prefix,
};
use crate::text::{contains_text, texts};

verus! {

broadcast use vstd::seq_lib::group_filter_ensures, vstd::seq_lib::group_seq_properties;

/// The path, relative to the local directory, that a remote key lands on: the key with the
/// remote prefix stripped off (component-wise), or the whole key when the prefix does not
/// lead it.
pub open spec fn relative_key(key: Seq<char>, prefix: Seq<char>) -> Seq<char> {
    match path_strip_prefix(key, prefix) {
        Some(rel) => rel,
        None => key,
    }
}

/// The remote key of a file at relative path `rel`: `prefix/rel`, or `rel` alone when the
/// prefix is empty.
pub open spec fn remote_key(prefix: Seq<char>, rel: Seq<char>) -> Seq<char> {
    if prefix.len() == 0 {
        rel
    } else {
        prefix + seq!['/'] + rel
    }
}

/// The local file `file` lies under `local_dir` at a path equal to `rel`.
pub open spec fn file_is_at(file: Seq<char>, local_dir: Seq<char>, rel: Seq<char>) -> bool {
    match path_strip_prefix(file, local_dir) {
        Some(r) => path_equal(r, rel),
        None => false,
    }
}

/// Some scanned local file lies at relative path `rel`.
pub open spec fn held_locally(files: Seq<Seq<char>>, local_dir: Seq<char>, rel: Seq<char>) -> bool {
    exists|i: int| 0 <= i < files.len() && #[trigger] file_is_at(files[i], local_dir, rel)
}

/// The key at position `i` was already listed before it.
pub open spec fn listed_earlier(keys: Seq<Seq<char>>, i: int) -> bool {
    exists|j: int| 0 <= j < i && keys[j] == keys[i]
}

/// Whether the key at position `i` is fetched. With `refetch`, a key is fetched when no local
/// file stands at its path and it was not fetched earlier in the cycle, which comes to: it was
/// not listed earlier. Without `refetch`, only keys whose file exists locally are fetched.
pub open spec fn pull_fetches(
    keys: Seq<Seq<char>>,
    i: int,
    prefix: Seq<char>,
    files: Seq<Seq<char>>,
    local_dir: Seq<char>,
    refetch: bool,
) -> bool {
    let here = held_locally(files, local_dir, relative_key(keys[i], prefix));
    if refetch {
        !here && !listed_earlier(keys, i)
    } else {
        here
    }
}

/// Some listed key lands on relative path `rel`: its relative key (where a pull downloads it)
/// names the same path.
pub open spec fn lands_from_listing(keys: Seq<Seq<char>>, prefix: Seq<char>, rel: Seq<char>) -> bool {
    exists|k: int| 0 <= k < keys.len() && #[trigger] path_equal(relative_key(keys[k], prefix), rel)
}

/// A local file whose object is not in the listing: it lies under `local_dir`, its remote key
/// (`prefix/rel`, as a push stores it) is not listed, and no listed key lands on its path.
pub open spec fn is_local_orphan(
    keys: Seq<Seq<char>>,
    prefix: Seq<char>,
    local_dir: Seq<char>,
    file: Seq<char>,
) -> bool {
    match path_strip_prefix(file, local_dir) {
        Some(rel) => !keys.contains(remote_key(prefix, rel)) && !lands_from_listing(keys, prefix, rel),
        None => false,
    }
}

/// What happens to one listed key in a pull.
pub struct PullStep {
    /// The listed key.
    pub key: String,
    /// Its path relative to the local directory.
    pub relative: String,
    /// Where it lands: the local directory joined with `relative`.
    pub target: String,
    /// Whether it is downloaded (otherwise it is skipped).
    pub fetch: bool,
}

/// The decisions of a pull.
pub struct PullPlan {
    /// One step per listed key, in listing order.
    pub steps: Vec<PullStep>,
    /// Local files to delete, in scan order.
    pub orphans: Vec<String>,
}

/// `step` is what a pull decides for the key at position `i`.
pub open spec fn is_pull_step(
    step: PullStep,
    keys: Seq<Seq<char>>,
    i: int,
    prefix: Seq<char>,
    files: Seq<Seq<char>>,
    local_dir: Seq<char>,
    refetch: bool,
) -> bool {
    &&& step.key@ == keys[i]
    &&& step.relative@ == relative_key(keys[i], prefix)
    &&& step.target@ == path_join(local_dir, relative_key(keys[i], prefix))
    &&& step.fetch == pull_fetches(keys, i, prefix, files, local_dir, refetch)
}

/// The key that a local file at relative path `rel` is stored under.
pub fn remote_key_for(prefix: &str, rel: &str) -> (r: String)
    ensures
        r@ == remote_key(prefix@, rel@),
{
    if prefix.is_empty() {
        String::from_str(rel)
    } else {
        let sep = "/";
        proof {
            reveal_strlit("/");
        }
        let mut key = String::from_str(prefix);
        key.append(sep);
        key.append(rel);
        key
    }
}

/// Some file among the first `upto` lies under `local_dir` at relative path `r`.
spec fn strips_to(files: Seq<Seq<char>>, upto: int, local_dir: Seq<char>, r: Seq<char>) -> bool {
    exists|j: int| 0 <= j < upto && path_strip_prefix(files[j], local_dir) == Some(r)
}

/// `rels` are exactly the relative paths of those of the first `upto` files that lie under
/// `local_dir` (as a set).
spec fn relatives_of(rels: Seq<Seq<char>>, files: Seq<Seq<char>>, upto: int, local_dir: Seq<char>) -> bool {
    &&& forall|m: int| 0 <= m < rels.len() ==> strips_to(files, upto, local_dir, #[trigger] rels[m])
    &&& forall|j: int|
        0 <= j < upto ==> (#[trigger] path_strip_prefix(files[j], local_dir) matches Some(r)
            ==> rels.contains(r))
}

/// The relative paths of the scanned files that lie under `local_dir`.
fn relative_paths(local_dir: &str, local_files: &Vec<String>) -> (rels: Vec<String>)
    ensures
        relatives_of(texts(rels@), texts(local_files@), local_files@.len() as int, local_dir@),
{
    let ghost files = texts(local_files@);
    let mut rels: Vec<String> = Vec::new();
    let n = local_files.len();
    let mut i: usize = 0;
    while i < n
        invariant
            n == local_files@.len(),
            files == texts(local_files@),
            i <= n,
            relatives_of(texts(rels@), files, i as int, local_dir@),
        decreases n - i,
    {
        let ghost old_rels = texts(rels@);
        assert(files[i as int] == local_files@[i as int]@);
        match strip_path_prefix(local_files[i].as_str(), local_dir) {
            Some(rel) => {
                rels.push(rel);
                proof {
                    let new_rels = texts(rels@);
                    assert(new_rels =~= old_rels.push(rel@));
                    assert forall|m: int| 0 <= m < new_rels.len() implies strips_to(
                        files,
                        i + 1,
                        local_dir@,
                        #[trigger] new_rels[m],
                    ) by {
                        if m < old_rels.len() {
                            assert(strips_to(files, i as int, local_dir@, old_rels[m]));
                            let j = choose|j: int|
                                0 <= j < i && path_strip_prefix(files[j], local_dir@)
                                    == Some(old_rels[m]);
                            assert(0 <= j < i + 1 && path_strip_prefix(files[j], local_dir@)
                                == Some(new_rels[m]));
                        } else {
                            assert(path_strip_prefix(files[i as int], local_dir@) == Some(new_rels[m]));
                        }
                    }
                    assert forall|j: int|
                        0 <= j < i + 1 implies (#[trigger] path_strip_prefix(files[j], local_dir@)
                        matches Some(r) ==> new_rels.contains(r)) by {
                        if j < i {
                            if let Some(r) = path_strip_prefix(files[j], local_dir@) {
                                assert(old_rels.contains(r));
                                let m = choose|m: int| 0 <= m < old_rels.len() && old_rels[m] == r;
                                assert(new_rels[m] == r);
                            }
                        } else {
                            assert(new_rels[old_rels.len() as int] == rel@);
                        }
                    }
                }
            },
            None => {
                proof {
                    assert forall|m: int| 0 <= m < old_rels.len() implies strips_to(
                        files,
                        i + 1,
                        local_dir@,
                        #[trigger] old_rels[m],
                    ) by {
                        assert(strips_to(files, i as int, local_dir@, old_rels[m]));
                        let j = choose|j: int|
                            0 <= j < i && path_strip_prefix(files[j], local_dir@) == Some(old_rels[m]);
                        assert(0 <= j < i + 1 && path_strip_prefix(files[j], local_dir@)
                            == Some(old_rels[m]));
                    }
                }
            },
        }
        i = i + 1;
    }
    rels
}

/// With `rels` the relative paths of the scanned files, a path is held locally exactly when
/// one of `rels` names it.
proof fn lemma_held_via_relatives(
    rels: Seq<Seq<char>>,
    files: Seq<Seq<char>>,
    local_dir: Seq<char>,
    rel: Seq<char>,
)
    requires
        relatives_of(rels, files, files.len() as int, local_dir),
    ensures
        (exists|m: int| 0 <= m < rels.len() && path_equal(#[trigger] rels[m], rel))
            == held_locally(files, local_dir, rel),
{
    if exists|m: int| 0 <= m < rels.len() && path_equal(#[trigger] rels[m], rel) {
        let m = choose|m: int| 0 <= m < rels.len() && path_equal(#[trigger] rels[m], rel);
        assert(strips_to(files, files.len() as int, local_dir, rels[m]));
        let j = choose|j: int|
            0 <= j < files.len() && path_strip_prefix(files[j], local_dir) == Some(rels[m]);
        assert(file_is_at(files[j], local_dir, rel));
    }
    if held_locally(files, local_dir, rel) {
        let j = choose|j: int| 0 <= j < files.len() && #[trigger] file_is_at(files[j], local_dir, rel);
        let r = path_strip_prefix(files[j], local_dir)->0;
        assert(rels.contains(r));
        let m = choose|m: int| 0 <= m < rels.len() && rels[m] == r;
        assert(path_equal(rels[m], rel));
    }
}

/// Whether one of `rels` names the same path as `rel`.
fn holds_path(rels: &Vec<String>, rel: &str) -> (b: bool)
    ensures
        b == exists|m: int| 0 <= m < rels@.len() && path_equal(#[trigger] texts(rels@)[m], rel@),
{
    let n = rels.len();
    let mut m: usize = 0;
    while m < n
        invariant
            n == rels@.len(),
            m <= n,
            forall|k: int| 0 <= k < m ==> !path_equal(#[trigger] texts(rels@)[k], rel@),
        decreases n - m,
    {
        assert(texts(rels@)[m as int] == rels@[m as int]@);
        if same_path(rels[m].as_str(), rel) {
            return true;
        }
        m = m + 1;
    }
    false
}

/// Some key before position `i` reads `k`, and no local file stands at its path: in a
/// refetching pull, such a key has been downloaded before position `i`.
pub open spec fn fetched_before(
    keys: Seq<Seq<char>>,
    i: int,
    prefix: Seq<char>,
    files: Seq<Seq<char>>,
    local_dir: Seq<char>,
    k: Seq<char>,
) -> bool {
    exists|j: int|
        0 <= j < i && keys[j] == k && !held_locally(files, local_dir, relative_key(k, prefix))
}

/// One step of a refetching pull: the key is fetched when absent locally and not among those
/// downloaded so far, and the set of downloaded keys grows accordingly.
proof fn lemma_refetch_step(
    down: Seq<Seq<char>>,
    new_down: Seq<Seq<char>>,
    keys: Seq<Seq<char>>,
    i: int,
    prefix: Seq<char>,
    files: Seq<Seq<char>>,
    local_dir: Seq<char>,
    fetch: bool,
)
    requires
        0 <= i < keys.len(),
        forall|k: Seq<char>| #[trigger] down.contains(k) <==> fetched_before(keys, i, prefix, files, local_dir, k),
        fetch == (!held_locally(files, local_dir, relative_key(keys[i], prefix)) && !down.contains(keys[i])),
        new_down == (if fetch { down.push(keys[i]) } else { down }),
    ensures
        forall|k: Seq<char>| #[trigger] new_down.contains(k) <==> fetched_before(keys, i + 1, prefix, files, local_dir, k),
        fetch == pull_fetches(keys, i, prefix, files, local_dir, true),
{
    let k0 = keys[i];
    let here = held_locally(files, local_dir, relative_key(k0, prefix));
    if listed_earlier(keys, i) && !here {
        let j = choose|j: int| 0 <= j < i && keys[j] == keys[i];
        assert(fetched_before(keys, i, prefix, files, local_dir, k0));
    }
    if down.contains(k0) {
        assert(fetched_before(keys, i, prefix, files, local_dir, k0));
        let j = choose|j: int|
            0 <= j < i && keys[j] == k0 && !held_locally(files, local_dir, relative_key(k0, prefix));
        assert(listed_earlier(keys, i));
    }
    assert forall|k: Seq<char>| #[trigger] new_down.contains(k) <==> fetched_before(keys, i + 1, prefix, files, local_dir, k) by {
        if fetched_before(keys, i + 1, prefix, files, local_dir, k) {
            let j = choose|j: int|
                0 <= j < i + 1 && keys[j] == k && !held_locally(files, local_dir, relative_key(k, prefix));
            if j < i {
                assert(fetched_before(keys, i, prefix, files, local_dir, k));
                assert(down.contains(k));
                if fetch {
                    let x = choose|x: int| 0 <= x < down.len() && down[x] == k;
                    assert(new_down[x] == k);
                }
            } else {
                if fetch {
                    assert(new_down[down.len() as int] == k);
                }
            }
        }
        if new_down.contains(k) {
            if fetch && k == k0 {
                assert(0 <= i < i + 1 && keys[i] == k);
            } else {
                if fetch {
                    let x = choose|x: int| 0 <= x < new_down.len() && new_down[x] == k;
                    assert(down[x] == k);
                }
                assert(down.contains(k));
                assert(fetched_before(keys, i, prefix, files, local_dir, k));
                let j = choose|j: int|
                    0 <= j < i && keys[j] == k && !held_locally(files, local_dir, relative_key(k, prefix));
                assert(0 <= j < i + 1);
            }
        }
    }
}

/// Decides a pull: for each listed key (in order) whether it is downloaded, and which local
/// files are deleted because their object is not listed.
///
/// `keys` is the remote listing, `prefix` the remote key prefix, `local_files` the scanned
/// local files (in scan order) and `local_dir` the directory they were scanned under.
pub fn plan_pull(
    keys: &Vec<String>,
    prefix: &str,
    local_dir: &str,
    local_files: &Vec<String>,
    refetch: bool,
) -> (plan: PullPlan)
    ensures
        plan.steps@.len() == keys@.len(),
        forall|i: int|
            0 <= i < keys@.len() ==> is_pull_step(
                #[trigger] plan.steps@[i],
                texts(keys@),
                i,
                prefix@,
                texts(local_files@),
                local_dir@,
                refetch,
            ),
        texts(plan.orphans@) == texts(local_files@).filter(
            |f: Seq<char>| is_local_orphan(texts(keys@), prefix@, local_dir@, f),
        ),
{
    let ghost keys_v = texts(keys@);
    let ghost files_v = texts(local_files@);
    let rels = relative_paths(local_dir, local_files);
    let mut steps: Vec<PullStep> = Vec::new();
    let mut downloaded: Vec<String> = Vec::new();
    let n = keys.len();
    let mut i: usize = 0;
    while i < n
        invariant
            n == keys@.len(),
            i <= n,
            keys_v == texts(keys@),
            files_v == texts(local_files@),
            relatives_of(texts(rels@), files_v, files_v.len() as int, local_dir@),
            steps@.len() == i,
            forall|j: int|
                0 <= j < i ==> is_pull_step(
                    #[trigger] steps@[j],
                    keys_v,
                    j,
                    prefix@,
                    files_v,
                    local_dir@,
                    refetch,
                ),
            refetch ==> forall|k: Seq<char>|
                #[trigger] texts(downloaded@).contains(k) <==> fetched_before(
                    keys_v,
                    i as int,
                    prefix@,
                    files_v,
                    local_dir@,
                    k,
                ),
        decreases n - i,
    {
        let key = &keys[i];
        assert(keys_v[i as int] == key@);
        let rel = match strip_path_prefix(key.as_str(), prefix) {
            Some(r) => r,
            None => key.clone(),
        };
        let target = join_path(local_dir, rel.as_str());
        let here = holds_path(&rels, rel.as_str());
        proof {
            lemma_held_via_relatives(texts(rels@), files_v, local_dir@, rel@);
        }
        let already = contains_text(&downloaded, key.as_str());
        let fetch = if refetch {
            !here && !already
        } else {
            here
        };
        let ghost old_down = texts(downloaded@);
        if fetch {
            downloaded.push(key.clone());
        }
        proof {
            if fetch {
                assert(texts(downloaded@) =~= old_down.push(key@));
            }
            if refetch {
                lemma_refetch_step(
                    old_down,
                    texts(downloaded@),
                    keys_v,
                    i as int,
                    prefix@,
                    files_v,
                    local_dir@,
                    fetch,
                );
            }
        }
        let step = PullStep { key: key.clone(), relative: rel, target, fetch };
        steps.push(step);
        i = i + 1;
    }
    let orphans = local_orphans(keys, prefix, local_dir, local_files);
    PullPlan { steps, orphans }
}

/// The relative key of each listed key, in listing order.
fn landing_paths(keys: &Vec<String>, prefix: &str) -> (rels: Vec<String>)
    ensures
        rels@.len() == keys@.len(),
        forall|k: int| 0 <= k < keys@.len() ==> #[trigger] texts(rels@)[k] == relative_key(keys@[k]@, prefix@),
{
    let mut rels: Vec<String> = Vec::new();
    let n = keys.len();
    let mut i: usize = 0;
    while i < n
        invariant
            n == keys@.len(),
            i <= n,
            rels@.len() == i,
            forall|k: int| 0 <= k < i ==> #[trigger] texts(rels@)[k] == relative_key(keys@[k]@, prefix@),
        decreases n - i,
    {
        let rel = match strip_path_prefix(keys[i].as_str(), prefix) {
            Some(r) => r,
            None => keys[i].clone(),
        };
        let ghost before = rels@;
        rels.push(rel);
        proof {
            assert forall|k: int| 0 <= k < i + 1 implies #[trigger] texts(rels@)[k] == relative_key(keys@[k]@, prefix@) by {
                if k < i {
                    assert(rels@[k] == before[k]);
                    assert(texts(before)[k] == relative_key(keys@[k]@, prefix@));
                }
            }
        }
        i = i + 1;
    }
    rels
}

/// The scanned local files, in scan order, that lie under `local_dir` and whose object is not
/// in the listing.
fn local_orphans(keys: &Vec<String>, prefix: &str, local_dir: &str, local_files: &Vec<String>) -> (orphans: Vec<String>)
    ensures
        texts(orphans@) == texts(local_files@).filter(
            |f: Seq<char>| is_local_orphan(texts(keys@), prefix@, local_dir@, f),
        ),
{
    let ghost pred = |f: Seq<char>| is_local_orphan(texts(keys@), prefix@, local_dir@, f);
    let landings = landing_paths(keys, prefix);
    let mut orphans: Vec<String> = Vec::new();
    let n = local_files.len();
    let mut i: usize = 0;
    while i < n
        invariant
            n == local_files@.len(),
            i <= n,
            pred == (|f: Seq<char>| is_local_orphan(texts(keys@), prefix@, local_dir@, f)),
            landings@.len() == keys@.len(),
            forall|k: int| 0 <= k < keys@.len() ==> #[trigger] texts(landings@)[k] == relative_key(keys@[k]@, prefix@),
            texts(orphans@) == texts(local_files@).take(i as int).filter(pred),
        decreases n - i,
    {
        let ghost old_orphans = orphans@;
        let file = &local_files[i];
        proof {
            assert(texts(local_files@).take(i + 1) =~= texts(local_files@).take(i as int).push(
                file@,
            ));
            texts(local_files@).take(i as int).lemma_filter_push(file@, pred);
        }
        match strip_path_prefix(file.as_str(), local_dir) {
            Some(rel) => {
                let key = remote_key_for(prefix, rel.as_str());
                let listed = contains_text(keys, key.as_str());
                let lands = holds_path(&landings, rel.as_str());
                proof {
                    let keys_v = texts(keys@);
                    if lands {
                        let m = choose|m: int| 0 <= m < landings@.len() && path_equal(#[trigger] texts(landings@)[m], rel@);
                        assert(keys_v[m] == keys@[m]@);
                        assert(path_equal(relative_key(keys_v[m], prefix@), rel@));
                    }
                    if lands_from_listing(keys_v, prefix@, rel@) {
                        let m = choose|m: int| 0 <= m < keys_v.len() && #[trigger] path_equal(relative_key(keys_v[m], prefix@), rel@);
                        assert(keys_v[m] == keys@[m]@);
                        assert(path_equal(texts(landings@)[m], rel@));
                    }
                    assert(pred(file@) == (!listed && !lands));
                }
                if !listed && !lands {
                    orphans.push(file.clone());
                    assert(texts(orphans@) =~= texts(old_orphans).push(file@));
                }
            },
            None => {
                assert(!pred(file@));
            },
        }
        i = i + 1;
    }
    assert(texts(local_files@).take(n as int) =~= texts(local_files@));
    orphans
}

/// `file` lies under `local_dir`.
pub open spec fn placed(file: Seq<char>, local_dir: Seq<char>) -> bool {
    path_strip_prefix(file, local_dir) is Some
}

/// The key a file under `local_dir` is uploaded under.
pub open spec fn upload_key(prefix: Seq<char>, local_dir: Seq<char>, file: Seq<char>) -> Seq<char> {
    remote_key(prefix, path_strip_prefix(file, local_dir)->0)
}

/// `u` uploads the local file `file` under its key.
pub open spec fn is_upload(u: Upload, prefix: Seq<char>, local_dir: Seq<char>, file: Seq<char>) -> bool {
    &&& placed(file, local_dir)
    &&& u.local_path@ == file
    &&& u.key@ == upload_key(prefix, local_dir, file)
}

/// One upload of a push.
pub struct Upload {
    /// The local file.
    pub local_path: String,
    /// The key it is stored under.
    pub key: String,
}

/// A listed key whose local counterpart must be looked for after the uploads.
pub struct RemoteCheck {
    /// The listed key.
    pub key: String,
    /// The local path that must exist for the object to stay.
    pub target: String,
}

/// The decisions of a push.
pub struct PushPlan {
    /// The uploads, in scan order.
    pub uploads: Vec<Upload>,
    /// The first scanned file that does not lie under the local directory, if any: the push
    /// fails there, after the uploads before it.
    pub unplaced: Option<String>,
    /// When the uploads all succeed, one check per listed key, in listing order.
    pub checks: Vec<RemoteCheck>,
}

/// Decides a push: each scanned file, in order, is uploaded under its key, up to the first
/// file that does not lie under `local_dir` (where the push fails); when there is none, each
/// listed key is to be checked against its local path.
pub fn plan_push(
    keys: &Vec<String>,
    prefix: &str,
    local_dir: &str,
    local_files: &Vec<String>,
) -> (plan: PushPlan)
    ensures
        plan.uploads@.len() <= local_files@.len(),
        forall|i: int|
            0 <= i < plan.uploads@.len() ==> is_upload(
                #[trigger] plan.uploads@[i],
                prefix@,
                local_dir@,
                local_files@[i]@,
            ),
        match plan.unplaced {
            None => {
                &&& plan.uploads@.len() == local_files@.len()
                &&& plan.checks@.len() == keys@.len()
                &&& forall|i: int|
                    0 <= i < keys@.len() ==> {
                        &&& (#[trigger] plan.checks@[i]).key@ == keys@[i]@
                        &&& plan.checks@[i].target@ == path_join(
                            local_dir@,
                            relative_key(keys@[i]@, prefix@),
                        )
                    }
            },
            Some(f) => {
                &&& plan.uploads@.len() < local_files@.len()
                &&& f@ == local_files@[plan.uploads@.len() as int]@
                &&& !placed(f@, local_dir@)
                &&& plan.checks@.len() == 0
            },
        },
{
    let mut uploads: Vec<Upload> = Vec::new();
    let n = local_files.len();
    let mut i: usize = 0;
    while i < n
        invariant
            n == local_files@.len(),
            i <= n,
            uploads@.len() == i,
            forall|j: int|
                0 <= j < i ==> is_upload(#[trigger] uploads@[j], prefix@, local_dir@, local_files@[j]@),
        decreases n - i,
    {
        let file = &local_files[i];
        match strip_path_prefix(file.as_str(), local_dir) {
            Some(rel) => {
                let key = remote_key_for(prefix, rel.as_str());
                let ghost old_uploads = uploads@;
                uploads.push(Upload { local_path: file.clone(), key });
                assert(uploads@ == old_uploads.push(uploads@[i as int]));
            },
            None => {
                return PushPlan { uploads, unplaced: Some(file.clone()), checks: Vec::new() };
            },
        }
        i = i + 1;
    }
    let mut checks: Vec<RemoteCheck> = Vec::new();
    let m = keys.len();
    let mut k: usize = 0;
    while k < m
        invariant
            m == keys@.len(),
            k <= m,
            checks@.len() == k,
            forall|j: int|
                0 <= j < k ==> {
                    &&& (#[trigger] checks@[j]).key@ == keys@[j]@
                    &&& checks@[j].target@ == path_join(local_dir@, relative_key(keys@[j]@, prefix@))
                },
        decreases m - k,
    {
        let key = &keys[k];
        let rel = match strip_path_prefix(key.as_str(), prefix) {
            Some(r) => r,
            None => key.clone(),
        };
        let target = join_path(local_dir, rel.as_str());
        checks.push(RemoteCheck { key: key.clone(), target });
        k = k + 1;
    }
    PushPlan { uploads, unplaced: None, checks }
}

/// The keys of the checks whose local path was not found, in order.
pub open spec fn absent_keys(checks: Seq<RemoteCheck>, present: Seq<bool>) -> Seq<Seq<char>>
    decreases checks.len(),
{
    if checks.len() == 0 {
        Seq::empty()
    } else {
        let rest = absent_keys(checks.drop_last(), present.drop_last());
        if present.last() {
            rest
        } else {
            rest.push(checks.last().key@)
        }
    }
}

/// The remote objects to delete after a push: those whose local path was not found
/// (`present[i]` tells whether the path of `checks[i]` exists).
pub fn remote_orphans(checks: &Vec<RemoteCheck>, present: &Vec<bool>) -> (keys: Vec<String>)
    requires
        present@.len() == checks@.len(),
    ensures
        texts(keys@) == absent_keys(checks@, present@),
{
    let mut keys: Vec<String> = Vec::new();
    let n = checks.len();
    let mut i: usize = 0;
    while i < n
        invariant
            n == checks@.len(),
            n == present@.len(),
            i <= n,
            texts(keys@) == absent_keys(checks@.take(i as int), present@.take(i as int)),
        decreases n - i,
    {
        let ghost old_keys = keys@;
        proof {
            assert(checks@.take(i + 1).drop_last() =~= checks@.take(i as int));
            assert(present@.take(i + 1).drop_last() =~= present@.take(i as int));
        }
        if !present[i] {
            keys.push(checks[i].key.clone());
            assert(texts(keys@) =~= texts(old_keys).push(checks@[i as int].key@));
        }
        i = i + 1;
    }
    assert(checks@.take(n as int) =~= checks@);
    assert(present@.take(n as int) =~= present@);
    keys
}

} // verus!
