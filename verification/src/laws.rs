//! Properties of a synchronisation cycle that hold for every input.
use vstd::prelude::*;

use crate::filter::regex_finds;
use crate::listing::{listed_key, scan_admits, selected_keys};
use crate::paths::{path_file_name, path_join, path_strip_prefix};
use crate::text::{last_index_of, last_segment};
use crate::plan::{
    absent_keys, held_locally, is_local_orphan, is_pull_step, lands_from_listing, listed_earlier,
    placed, pull_fetches, relative_key, remote_key, upload_key, PullStep, RemoteCheck,
};

verus! {

broadcast use vstd::seq_lib::group_filter_ensures, vstd::seq_lib::group_seq_properties;

/// How a pull decides a key. When refetching deleted files, a key is downloaded only when no
/// local file stands at its path; otherwise a key is downloaded exactly when its file already
/// exists locally.
pub proof fn lemma_pull_fetch_rules(
    keys: Seq<Seq<char>>,
    i: int,
    prefix: Seq<char>,
    files: Seq<Seq<char>>,
    local_dir: Seq<char>,
)
    requires
        0 <= i < keys.len(),
    ensures
        pull_fetches(keys, i, prefix, files, local_dir, true) ==> !held_locally(
            files,
            local_dir,
            relative_key(keys[i], prefix),
        ),
        pull_fetches(keys, i, prefix, files, local_dir, false) == held_locally(
            files,
            local_dir,
            relative_key(keys[i], prefix),
        ),
{
}

/// When refetching deleted files, a key listed twice is downloaded at most once in a cycle.
pub proof fn lemma_refetch_downloads_each_key_once(
    keys: Seq<Seq<char>>,
    i: int,
    j: int,
    prefix: Seq<char>,
    files: Seq<Seq<char>>,
    local_dir: Seq<char>,
)
    requires
        0 <= i < j < keys.len(),
        pull_fetches(keys, i, prefix, files, local_dir, true),
        pull_fetches(keys, j, prefix, files, local_dir, true),
    ensures
        keys[i] != keys[j],
{
    if keys[i] == keys[j] {
        assert(listed_earlier(keys, j));
    }
}

/// A pull deletes exactly the scanned files under the local directory whose object is not
/// listed: a file stays when its key is listed or when a listed key lands on its path (is
/// downloaded to it), and goes otherwise.
pub proof fn lemma_pull_deletes_exactly_unlisted(
    keys: Seq<Seq<char>>,
    prefix: Seq<char>,
    local_dir: Seq<char>,
    files: Seq<Seq<char>>,
    f: Seq<char>,
)
    requires
        files.contains(f),
        placed(f, local_dir),
    ensures
        files.filter(|g: Seq<char>| is_local_orphan(keys, prefix, local_dir, g)).contains(f)
            <==> (!keys.contains(upload_key(prefix, local_dir, f)) && !lands_from_listing(
            keys,
            prefix,
            path_strip_prefix(f, local_dir)->0,
        )),
{
    let pred = |g: Seq<char>| is_local_orphan(keys, prefix, local_dir, g);
    if files.filter(pred).contains(f) {
        let k = choose|k: int| 0 <= k < files.filter(pred).len() && files.filter(pred)[k] == f;
        assert(pred(files.filter(pred)[k]));
    }
    if !keys.contains(upload_key(prefix, local_dir, f)) && !lands_from_listing(
        keys,
        prefix,
        path_strip_prefix(f, local_dir)->0,
    ) {
        let k = choose|k: int| 0 <= k < files.len() && files[k] == f;
        assert(pred(files[k]));
    }
}

/// After a push has uploaded every scanned file under its key, a pull of the same files
/// against a listing that holds those keys deletes none of them.
pub proof fn lemma_pushed_files_survive_pull(
    keys: Seq<Seq<char>>,
    prefix: Seq<char>,
    local_dir: Seq<char>,
    files: Seq<Seq<char>>,
)
    requires
        forall|i: int|
            0 <= i < files.len() && placed(files[i], local_dir) ==> keys.contains(
                #[trigger] upload_key(prefix, local_dir, files[i]),
            ),
    ensures
        files.filter(|g: Seq<char>| is_local_orphan(keys, prefix, local_dir, g)).len() == 0,
{
    let pred = |g: Seq<char>| is_local_orphan(keys, prefix, local_dir, g);
    let out = files.filter(pred);
    if out.len() > 0 {
        assert(pred(out[0]));
        assert(out.contains(out[0]));
        files.lemma_filter_contains_rev(pred, out[0]);
        let k = choose|k: int| 0 <= k < files.len() && files[k] == out[0];
        assert(placed(files[k], local_dir));
        assert(keys.contains(upload_key(prefix, local_dir, files[k])));
    }
}

/// After a push, a listed object is deleted exactly when its local counterpart was not found.
pub proof fn lemma_push_deletes_exactly_absent(
    checks: Seq<RemoteCheck>,
    present: Seq<bool>,
    k: Seq<char>,
)
    requires
        present.len() == checks.len(),
    ensures
        absent_keys(checks, present).contains(k) <==> exists|i: int|
            0 <= i < checks.len() && !present[i] && (#[trigger] checks[i]).key@ == k,
    decreases checks.len(),
{
    if checks.len() > 0 {
        let n = checks.len() - 1;
        lemma_push_deletes_exactly_absent(checks.drop_last(), present.drop_last(), k);
        let rest = absent_keys(checks.drop_last(), present.drop_last());
        if exists|i: int| 0 <= i < checks.len() && !present[i] && (#[trigger] checks[i]).key@ == k {
            let i = choose|i: int| 0 <= i < checks.len() && !present[i] && (#[trigger] checks[i]).key@ == k;
            if i < n {
                assert(checks.drop_last()[i] == checks[i]);
                assert(rest.contains(k));
                if !present.last() {
                    let x = choose|x: int| 0 <= x < rest.len() && rest[x] == k;
                    assert(rest.push(checks.last().key@)[x] == k);
                }
            } else {
                assert(rest.push(checks.last().key@)[rest.len() as int] == k);
            }
        }
        if absent_keys(checks, present).contains(k) {
            if !present.last() && checks.last().key@ == k {
                assert(checks[n].key@ == k);
            } else {
                if !present.last() {
                    let x = choose|x: int| 0 <= x < rest.len() + 1 && rest.push(checks.last().key@)[x] == k;
                    assert(rest[x] == k);
                }
                assert(rest.contains(k));
                let i = choose|i: int|
                    0 <= i < checks.drop_last().len() && !present.drop_last()[i] && (
                    #[trigger] checks.drop_last()[i]).key@ == k;
                assert(checks[i] == checks.drop_last()[i]);
            }
        }
    }
}

/// How a listing is split into pages does not change which keys are selected, nor their
/// order: selecting from two pages one after the other gives the same keys as selecting from
/// the two as one page.
pub proof fn lemma_pages_split_freely(
    pattern: Seq<char>,
    first: Seq<Option<String>>,
    second: Seq<Option<String>>,
)
    ensures
        selected_keys(pattern, first + second) == selected_keys(pattern, first) + selected_keys(
            pattern,
            second,
        ),
{
    let f = |e: Option<String>| listed_key(e);
    assert((first + second).map_values(f) =~= first.map_values(f) + second.map_values(f));
    Seq::filter_distributes_over_add(
        first.map_values(f),
        second.map_values(f),
        |k: Seq<char>| crate::filter::regex_finds(pattern, crate::text::last_segment(k)),
    );
}

/// In a refetching pull, every listed key whose file is missing locally is downloaded at its
/// first listing, at or before each of its positions.
pub proof fn lemma_refetch_covers_every_key(
    keys: Seq<Seq<char>>,
    i: int,
    prefix: Seq<char>,
    files: Seq<Seq<char>>,
    local_dir: Seq<char>,
)
    requires
        0 <= i < keys.len(),
        !held_locally(files, local_dir, relative_key(keys[i], prefix)),
    ensures
        exists|j: int|
            0 <= j <= i && keys[j] == keys[i] && #[trigger] pull_fetches(
                keys,
                j,
                prefix,
                files,
                local_dir,
                true,
            ),
    decreases i,
{
    if listed_earlier(keys, i) {
        let j = choose|j: int| 0 <= j < i && keys[j] == keys[i];
        lemma_refetch_covers_every_key(keys, j, prefix, files, local_dir);
        let k = choose|k: int|
            0 <= k <= j && keys[k] == keys[j] && #[trigger] pull_fetches(
                keys,
                k,
                prefix,
                files,
                local_dir,
                true,
            );
        assert(0 <= k <= i && keys[k] == keys[i]);
    } else {
        assert(pull_fetches(keys, i, prefix, files, local_dir, true));
    }
}

/// A second refetching pull against the same listing changes nothing, once the local files
/// are as the first pull leaves them: every listed key has its file locally, and every local
/// file under the local directory has its object listed (its key is listed, or a listed key
/// lands on its path). Then no key is downloaded and no local file is deleted.
pub proof fn lemma_settled_pull_is_quiet(
    keys: Seq<Seq<char>>,
    prefix: Seq<char>,
    local_dir: Seq<char>,
    files: Seq<Seq<char>>,
)
    requires
        forall|i: int|
            0 <= i < keys.len() ==> held_locally(
                files,
                local_dir,
                #[trigger] relative_key(keys[i], prefix),
            ),
        forall|i: int|
            0 <= i < files.len() && #[trigger] placed(files[i], local_dir) ==> keys.contains(
                upload_key(prefix, local_dir, files[i]),
            ) || lands_from_listing(keys, prefix, path_strip_prefix(files[i], local_dir)->0),
    ensures
        forall|i: int|
            0 <= i < keys.len() ==> !#[trigger] pull_fetches(
                keys,
                i,
                prefix,
                files,
                local_dir,
                true,
            ),
        files.filter(|g: Seq<char>| is_local_orphan(keys, prefix, local_dir, g)).len() == 0,
{
    assert forall|i: int| 0 <= i < keys.len() implies !#[trigger] pull_fetches(
        keys,
        i,
        prefix,
        files,
        local_dir,
        true,
    ) by {
        assert(held_locally(files, local_dir, relative_key(keys[i], prefix)));
    }
    let pred = |g: Seq<char>| is_local_orphan(keys, prefix, local_dir, g);
    let out = files.filter(pred);
    if out.len() > 0 {
        assert(pred(out[0]));
        assert(out.contains(out[0]));
        files.lemma_filter_contains_rev(pred, out[0]);
        let k = choose|k: int| 0 <= k < files.len() && files[k] == out[0];
        assert(placed(files[k], local_dir));
    }
}

/// Where the last `c` of `s` stands: nothing after it is `c`, and it is `c` itself unless it
/// is `-1` (no `c` at all).
proof fn lemma_last_index_of_facts(s: Seq<char>, c: char)
    ensures
        -1 <= last_index_of(s, c) < s.len(),
        last_index_of(s, c) >= 0 ==> s[last_index_of(s, c)] == c,
        forall|j: int| last_index_of(s, c) < j < s.len() ==> s[j] != c,
    decreases s.len(),
{
    if s.len() > 0 && s.last() != c {
        lemma_last_index_of_facts(s.drop_last(), c);
        assert forall|j: int| last_index_of(s, c) < j < s.len() implies s[j] != c by {
            if j < s.len() - 1 {
                assert(s[j] == s.drop_last()[j]);
            }
        }
    }
}

/// The segment a remote key is filtered by is the part after its last `/`: it holds no `/`,
/// it ends the key, and what stands before it in the key is empty or ends in `/`.
pub proof fn lemma_key_segment_is_after_last_slash(key: Seq<char>)
    ensures
        !last_segment(key).contains('/'),
        last_segment(key).len() <= key.len(),
        key.subrange(key.len() - last_segment(key).len(), key.len() as int) == last_segment(key),
        last_segment(key).len() == key.len() || key[key.len() - last_segment(key).len() - 1]
            == '/',
{
    lemma_last_index_of_facts(key, '/');
    let seg = last_segment(key);
    let li = last_index_of(key, '/');
    assert forall|j: int| 0 <= j < seg.len() implies seg[j] != '/' by {
        assert(seg[j] == key[li + 1 + j]);
    }
    assert(key.subrange(key.len() - seg.len(), key.len() as int) =~= seg);
}

/// Upload keys keep the whole relative path: the key ends with the file's path relative to the
/// local directory and starts with the prefix; with an empty prefix it is that relative path
/// itself, and otherwise exactly one `/` stands between the two. So files at different
/// relative paths get different keys.
pub proof fn lemma_upload_key_keeps_relative_path(
    prefix: Seq<char>,
    local_dir: Seq<char>,
    f: Seq<char>,
    g: Seq<char>,
)
    requires
        placed(f, local_dir),
        placed(g, local_dir),
    ensures
        ({
            let rel = path_strip_prefix(f, local_dir)->0;
            let key = upload_key(prefix, local_dir, f);
            &&& rel.len() <= key.len()
            &&& key.subrange(key.len() - rel.len(), key.len() as int) == rel
            &&& prefix.len() <= key.len()
            &&& key.subrange(0, prefix.len() as int) == prefix
            &&& prefix.len() == 0 ==> key == rel
            &&& prefix.len() > 0 ==> key.len() == prefix.len() + 1 + rel.len() && key[prefix.len() as int] == '/'
        }),
        path_strip_prefix(f, local_dir)->0 != path_strip_prefix(g, local_dir)->0 ==> upload_key(
            prefix,
            local_dir,
            f,
        ) != upload_key(prefix, local_dir, g),
{
    let r1 = path_strip_prefix(f, local_dir)->0;
    let r2 = path_strip_prefix(g, local_dir)->0;
    let k1 = remote_key(prefix, r1);
    let k2 = remote_key(prefix, r2);
    assert(k1.subrange(k1.len() - r1.len(), k1.len() as int) =~= r1);
    assert(k1.subrange(0, prefix.len() as int) =~= prefix);
    if k1 == k2 {
        assert(k2.subrange(k2.len() - r2.len(), k2.len() as int) =~= r2);
        assert(r1.len() == r2.len());
        assert(r1 =~= r2);
    }
}

/// A walked regular file is filtered by its whole file name, as `Path::file_name` gives it
/// (extension included); an entry without a file name is filtered by the empty name, and an
/// entry that is not a regular file never takes part.
pub proof fn lemma_scan_filters_by_file_name(pattern: Seq<char>, path: Seq<char>, is_file: bool)
    ensures
        !is_file ==> !scan_admits(pattern, path, is_file),
        is_file ==> (match path_file_name(path) {
            Some(name) => scan_admits(pattern, path, is_file) == regex_finds(pattern, name),
            None => scan_admits(pattern, path, is_file) == regex_finds(pattern, Seq::empty()),
        }),
{
}

/// A pull lands a key where stripping the prefix (component-wise, as `Path::strip_prefix`
/// does) leaves it, whatever the number of components of the prefix; a key that the prefix
/// does not lead lands at its own path.
pub proof fn lemma_pull_strips_the_prefix(
    step: PullStep,
    keys: Seq<Seq<char>>,
    i: int,
    prefix: Seq<char>,
    files: Seq<Seq<char>>,
    local_dir: Seq<char>,
    refetch: bool,
)
    requires
        0 <= i < keys.len(),
        is_pull_step(step, keys, i, prefix, files, local_dir, refetch),
    ensures
        match path_strip_prefix(keys[i], prefix) {
            Some(r) => step.relative@ == r && step.target@ == path_join(local_dir, r),
            None => step.relative@ == keys[i] && step.target@ == path_join(local_dir, keys[i]),
        },
        path_strip_prefix(keys[i], prefix) matches Some(r) ==> relative_key(keys[i], prefix) == r,
        path_strip_prefix(keys[i], prefix) is None ==> relative_key(keys[i], prefix) == keys[i],
{
}

/// After a push, a listed key is looked for where stripping the prefix (component-wise) leaves
/// it under the local directory, whatever the number of components of the prefix; a key that
/// the prefix does not lead is looked for at its own path.
pub proof fn lemma_push_checks_strip_the_prefix(check: RemoteCheck, key: Seq<char>, prefix: Seq<char>, local_dir: Seq<char>)
    requires
        check.key@ == key,
        check.target@ == path_join(local_dir, relative_key(key, prefix)),
    ensures
        match path_strip_prefix(key, prefix) {
            Some(r) => check.target@ == path_join(local_dir, r),
            None => check.target@ == path_join(local_dir, key),
        },
{
}

} // verus!
