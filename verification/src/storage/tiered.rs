//! Tiered storage: moving old segments to a remote store.
//!
//! What is decided here is where a segment goes and which segments are due;
//! the copying and deleting is done by the embedding program.

use vstd::prelude::*;
use vstd::string::StringExecFns;
use vstd::string::StrSliceExecFns;
use crate::base::error::PyralogError;
use crate::base::offset::LogOffset;
use crate::storage::names::{
    component_of, directory_of, extension_of, file_name_of, is_log_extension, parse_decimal,
    parse_u64, path_file_name, split_name, split_path, stem_of,
};

verus! {

/// Where old segments are kept.
#[derive(Debug, Clone)]
pub enum RemoteStorageConfig {
    S3 { bucket: String, region: String, access_key: String, secret_key: String },
    Azure { container: String, connection_string: String },
    Gcs { bucket: String, credentials_path: String },
    Local { path: String },
}

/// The local directory of a partition and the remote store behind it.
#[derive(Debug, Clone)]
pub struct TieredStorage {
    local_path: String,
    remote_config: RemoteStorageConfig,
}

/// What is to be done to archive one segment: copy the segment file to the
/// remote place, then delete it and its index file.
#[derive(Debug, Clone)]
pub struct ArchiveStep {
    pub segment_path: String,
    pub index_path: String,
    pub remote_url: String,
}

/// An archive step as a mathematical value.
pub struct ArchiveStepView {
    pub segment_path: Seq<char>,
    pub index_path: Seq<char>,
    pub remote_url: Seq<char>,
}

impl View for ArchiveStep {
    type V = ArchiveStepView;

    open spec fn view(&self) -> ArchiveStepView {
        ArchiveStepView {
            segment_path: self.segment_path@,
            index_path: self.index_path@,
            remote_url: self.remote_url@,
        }
    }
}

/// The steps of a list as mathematical values, in order.
pub open spec fn steps_view(steps: Seq<ArchiveStep>) -> Seq<ArchiveStepView> {
    steps.map_values(|s: ArchiveStep| s@)
}

/// The remote place of a file named `file_name`.
pub open spec fn remote_url_of(config: RemoteStorageConfig, file_name: Seq<char>) -> Seq<char> {
    match config {
        RemoteStorageConfig::Local { path } => path@ + seq!['/'] + file_name,
        RemoteStorageConfig::S3 { bucket, .. } => seq!['s', '3', ':', '/', '/'] + bucket@ + seq!['/']
            + file_name,
        RemoteStorageConfig::Azure { container, .. } => seq!['a', 'z', 'u', 'r', 'e', ':', '/', '/']
            + container@ + seq!['/'] + file_name,
        RemoteStorageConfig::Gcs { bucket, .. } => seq!['g', 's', ':', '/', '/'] + bucket@ + seq!['/']
            + file_name,
    }
}

/// The path of the index file that belongs to the segment file at `path`:
/// the same path with the extension `index`.
pub open spec fn index_path_of(path: Seq<char>) -> Seq<char> {
    directory_of(path) + stem_of(component_of(path)) + seq!['.', 'i', 'n', 'd', 'e', 'x']
}

/// Whether the file at `path` is a segment that lies wholly below
/// `before`: it is named as a segment file, and its base offset is smaller.
pub open spec fn is_due(path: Seq<char>, before: u64) -> bool {
    &&& file_name_of(path) is Some
    &&& extension_of(component_of(path)) == Some(seq!['l', 'o', 'g'])
    &&& parse_decimal(stem_of(component_of(path))) is Some
    &&& parse_decimal(stem_of(component_of(path)))->0 < before
}

/// The archive steps for the first `n` of `paths`: one step for each path
/// that is due, in the order of the paths.
pub open spec fn archive_steps(
    config: RemoteStorageConfig,
    paths: Seq<String>,
    before: u64,
    n: int,
) -> Seq<ArchiveStepView>
    decreases n,
{
    if n <= 0 || n > paths.len() {
        Seq::empty()
    } else {
        let rest = archive_steps(config, paths, before, n - 1);
        let p = paths[n - 1]@;
        if is_due(p, before) {
            rest.push(
                ArchiveStepView {
                    segment_path: p,
                    index_path: index_path_of(p),
                    remote_url: remote_url_of(config, component_of(p)),
                },
            )
        } else {
            rest
        }
    }
}

/// What is left of `s` once every leading `file://` is taken off.
pub open spec fn without_file_scheme(s: Seq<char>) -> Seq<char>
    decreases s.len(),
{
    if s.len() >= 7 && s.subrange(0, 7) == seq!['f', 'i', 'l', 'e', ':', '/', '/'] {
        without_file_scheme(s.subrange(7, s.len() as int))
    } else {
        s
    }
}

/// Whether the seven characters of `s` from `at` on are `file://`.
fn has_file_scheme(s: &str, at: usize, len: usize) -> (r: bool)
    requires
        len == s@.len(),
        at <= len,
    ensures
        r == (len - at >= 7 && s@.subrange(at as int, at + 7) == seq![
            'f',
            'i',
            'l',
            'e',
            ':',
            '/',
            '/',
        ]),
{
    if len - at < 7 {
        return false;
    }
    let r: bool = s.get_char(at) == 'f' && s.get_char(at + 1) == 'i' && s.get_char(at + 2) == 'l'
        && s.get_char(at + 3) == 'e' && s.get_char(at + 4) == ':' && s.get_char(at + 5) == '/'
        && s.get_char(at + 6) == '/';
    let ghost part = s@.subrange(at as int, at + 7);
    let ghost want = seq!['f', 'i', 'l', 'e', ':', '/', '/'];
    proof {
        if r {
            assert(part =~= want);
        }
    }
    r
}

impl TieredStorage {
    /// The local directory.
    pub closed spec fn spec_local_path(&self) -> Seq<char> {
        self.local_path@
    }

    /// The remote store.
    pub closed spec fn spec_remote(&self) -> RemoteStorageConfig {
        self.remote_config
    }

    pub fn new(local_path: String, remote_config: RemoteStorageConfig) -> (r: Self)
        ensures
            r.spec_local_path() == local_path@,
            r.spec_remote() == remote_config,
    {
        Self { local_path, remote_config }
    }

    /// Whether the remote store is a directory of this machine, so that
    /// uploading is copying a file.
    pub fn is_local(&self) -> (r: bool)
        ensures
            r == (self.spec_remote() is Local),
    {
        match &self.remote_config {
            RemoteStorageConfig::Local { .. } => true,
            _ => false,
        }
    }

    /// The local directory.
    pub fn local_path(&self) -> (r: &str)
        ensures
            r@ == self.spec_local_path(),
    {
        self.local_path.as_str()
    }

    /// The remote place of a file named `file_name`.
    fn remote_url(&self, file_name: &str) -> (r: String)
        ensures
            r@ == remote_url_of(self.remote_config, file_name@),
    {
        proof {
            reveal_strlit("/");
            reveal_strlit("s3://");
            reveal_strlit("azure://");
            reveal_strlit("gs://");
        }
        let mut url: String = match &self.remote_config {
            RemoteStorageConfig::Local { path } => path.clone(),
            RemoteStorageConfig::S3 { bucket, .. } => {
                let mut u: String = String::from_str("s3://");
                u.append(bucket.as_str());
                u
            },
            RemoteStorageConfig::Azure { container, .. } => {
                let mut u: String = String::from_str("azure://");
                u.append(container.as_str());
                u
            },
            RemoteStorageConfig::Gcs { bucket, .. } => {
                let mut u: String = String::from_str("gs://");
                u.append(bucket.as_str());
                u
            },
        };
        url.append("/");
        url.append(file_name);
        url
    }

    /// Where the segment file at `segment_path` goes when it is uploaded:
    /// the remote store's place for a file of its name. A path without a
    /// file name is refused.
    pub fn upload_target(&self, segment_path: &str) -> (r: Result<String, PyralogError>)
        ensures
            match r {
                Ok(url) => file_name_of(segment_path@) is Some && url@ == remote_url_of(
                    self.spec_remote(),
                    component_of(segment_path@),
                ),
                Err(e) => file_name_of(segment_path@) is None && e is StorageError,
            },
    {
        match path_file_name(segment_path) {
            Some(name) => Ok(self.remote_url(name)),
            None => Err(PyralogError::StorageError(String::from_str("Invalid segment path"))),
        }
    }

    /// Where a segment is fetched from when it is downloaded. Only a local
    /// store can be downloaded from: the place is the address without its
    /// leading `file://`.
    pub fn download_source(&self, remote_url: &str) -> (r: Result<String, PyralogError>)
        ensures
            match r {
                Ok(p) => self.spec_remote() is Local && p@ == without_file_scheme(remote_url@),
                Err(e) => !(self.spec_remote() is Local) && e is StorageError,
            },
    {
        match &self.remote_config {
            RemoteStorageConfig::Local { .. } => {
                let len: usize = remote_url.unicode_len();
                let mut at: usize = 0;
                assert(remote_url@.subrange(0, len as int) =~= remote_url@);
                while has_file_scheme(remote_url, at, len)
                    invariant
                        at <= len,
                        len == remote_url@.len(),
                        without_file_scheme(remote_url@.subrange(at as int, len as int))
                            == without_file_scheme(remote_url@),
                    decreases len - at,
                {
                    let ghost rest = remote_url@.subrange(at as int, len as int);
                    assert(rest.subrange(0, 7) =~= remote_url@.subrange(at as int, at + 7));
                    assert(rest.subrange(7, rest.len() as int) =~= remote_url@.subrange(
                        at + 7,
                        len as int,
                    ));
                    at += 7;
                }
                proof {
                    let rest = remote_url@.subrange(at as int, len as int);
                    if rest.len() >= 7 {
                        assert(rest.subrange(0, 7) =~= remote_url@.subrange(at as int, at + 7));
                    }
                }
                Ok(String::from_str(remote_url.substring_char(at, len)))
            },
            _ => Err(
                PyralogError::StorageError(String::from_str("Remote download not yet implemented")),
            ),
        }
    }

    /// Whether the file at `path` is a segment that lies wholly below
    /// `before`.
    fn due(path: &str, before: u64) -> (r: bool)
        ensures
            r == is_due(path@, before),
    {
        match path_file_name(path) {
            None => false,
            Some(name) => {
                let (stem, ext) = split_name(name);
                match ext {
                    None => false,
                    Some(e) => {
                        if !is_log_extension(e) {
                            false
                        } else {
                            match parse_u64(stem) {
                                Some(o) => o < before,
                                None => false,
                            }
                        }
                    },
                }
            },
        }
    }

    /// The path of the index file that belongs to the segment file at
    /// `path`.
    fn index_path(path: &str) -> (r: String)
        ensures
            r@ == index_path_of(path@),
    {
        proof {
            reveal_strlit(".index");
        }
        let (dir, name) = split_path(path);
        let (stem, _) = split_name(name);
        let mut s: String = String::from_str(dir);
        s.append(stem);
        s.append(".index");
        s
    }

    /// The plan for archiving old segments: of the files at `paths`, those
    /// that are segments with a base offset below `before_offset`, each
    /// with the place it is uploaded to and the index file that goes with
    /// it, in the order of `paths`.
    pub fn archive_plan(&self, paths: &Vec<String>, before_offset: LogOffset) -> (r: Vec<
        ArchiveStep,
    >)
        ensures
            steps_view(r@) == archive_steps(
                self.spec_remote(),
                paths@,
                before_offset.0,
                paths@.len() as int,
            ),
    {
        let mut out: Vec<ArchiveStep> = Vec::new();
        let n: usize = paths.len();
        let mut i: usize = 0;
        while i < n
            invariant
                i <= n,
                n == paths@.len(),
                steps_view(out@) == archive_steps(
                    self.remote_config,
                    paths@,
                    before_offset.0,
                    i as int,
                ),
            decreases n - i,
        {
            let path: &str = paths[i].as_str();
            if Self::due(path, before_offset.0) {
                let (_, name) = split_path(path);
                let step = ArchiveStep {
                    segment_path: String::from_str(path),
                    index_path: Self::index_path(path),
                    remote_url: self.remote_url(name),
                };
                out.push(step);
            }
            i += 1;
        }
        out
    }
}

} // verus!
