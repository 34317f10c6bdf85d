//! Recognising and splitting `s3://bucket/prefix` locations.
use vstd::prelude::*;
use vstd::string::*;

use crate::error::SyncError;
use crate::text::{find_char, first_index_of, has_prefix, lemma_first_index_of, starts_with};

verus! {

/// The scheme that marks a remote location as an S3 one.
pub open spec fn s3_scheme() -> Seq<char> {
    seq!['s', '3', ':', '/', '/']
}

/// `path` names an S3 location.
pub open spec fn is_s3_location(path: Seq<char>) -> bool {
    has_prefix(path, s3_scheme())
}

/// What follows the scheme.
pub open spec fn after_scheme(path: Seq<char>) -> Seq<char> {
    path.subrange(5, path.len() as int)
}

/// The bucket: everything after the scheme up to the first `/`.
pub open spec fn s3_bucket(path: Seq<char>) -> Seq<char> {
    let rest = after_scheme(path);
    rest.subrange(0, first_index_of(rest, '/'))
}

/// The key prefix: everything after the first `/` that follows the scheme, or nothing.
pub open spec fn s3_prefix(path: Seq<char>) -> Seq<char> {
    let rest = after_scheme(path);
    let k = first_index_of(rest, '/');
    if k < rest.len() {
        rest.subrange(k + 1, rest.len() as int)
    } else {
        Seq::empty()
    }
}

/// The location written for a bucket and a key prefix: `s3://bucket`, followed by `/prefix`
/// when the prefix is not empty.
pub open spec fn s3_location(bucket: Seq<char>, prefix: Seq<char>) -> Seq<char> {
    if prefix.len() == 0 {
        s3_scheme() + bucket
    } else {
        s3_scheme() + bucket + seq!['/'] + prefix
    }
}

/// Whether `path` starts with `s3://`.
pub fn is_s3_path(path: &str) -> (b: bool)
    ensures
        b == is_s3_location(path@),
{
    let scheme = "s3://";
    proof {
        reveal_strlit("s3://");
        assert(scheme@ =~= s3_scheme());
    }
    starts_with(path, scheme)
}

/// Splits `s3://bucket/prefix` into the bucket and the prefix (empty when there is none).
/// Refuses a path that does not start with `s3://`.
pub fn parse_s3_path(path: &str) -> (r: Result<(String, String), SyncError>)
    ensures
        r is Ok <==> is_s3_location(path@),
        r matches Ok((bucket, prefix)) ==> bucket@ == s3_bucket(path@) && prefix@ == s3_prefix(path@),
        r matches Err(e) ==> e == SyncError::InvalidS3Path,
{
    if !is_s3_path(path) {
        return Err(SyncError::InvalidS3Path);
    }
    let n = path.unicode_len();
    let rest = path.substring_char(5, n);
    let k = find_char(rest, '/');
    let m = rest.unicode_len();
    let bucket = String::from_str(rest.substring_char(0, k));
    let prefix = if k < m {
        String::from_str(rest.substring_char(k + 1, m))
    } else {
        String::new()
    };
    Ok((bucket, prefix))
}

/// Parsing gives back the bucket and prefix that a location was written from, provided the
/// bucket holds no `/`.
pub proof fn lemma_s3_location_round_trip(bucket: Seq<char>, prefix: Seq<char>)
    requires
        !bucket.contains('/'),
    ensures
        is_s3_location(s3_location(bucket, prefix)),
        s3_bucket(s3_location(bucket, prefix)) == bucket,
        s3_prefix(s3_location(bucket, prefix)) == prefix,
{
    let p = s3_location(bucket, prefix);
    let rest = after_scheme(p);
    assert(p.subrange(0, 5) =~= s3_scheme());
    if prefix.len() == 0 {
        assert(rest =~= bucket);
        assert forall|j: int| 0 <= j < bucket.len() implies rest[j] != '/' by {
            if rest[j] == '/' {
                assert(bucket.contains(bucket[j]));
            }
        }
        lemma_first_index_of(rest, '/', bucket.len() as int);
        assert(rest.subrange(0, bucket.len() as int) =~= bucket);
    } else {
        assert(rest =~= bucket + seq!['/'] + prefix);
        assert forall|j: int| 0 <= j < bucket.len() implies rest[j] != '/' by {
            assert(rest[j] == bucket[j]);
            if rest[j] == '/' {
                assert(bucket.contains(bucket[j]));
            }
        }
        assert(rest[bucket.len() as int] == '/');
        lemma_first_index_of(rest, '/', bucket.len() as int);
        assert(rest.subrange(0, bucket.len() as int) =~= bucket);
        assert(rest.subrange(bucket.len() as int + 1, rest.len() as int) =~= prefix);
    }
}

} // verus!
