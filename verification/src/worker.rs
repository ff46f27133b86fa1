//! Transcode worker decisions.
//!
//! The worker drains the queue serially and runs each task through
//! acquisition, optional decryption, a per-format transcode loop and result
//! publication. Everything that touches the network or the disk is done by
//! the caller; this module makes the decisions: how a source identifier
//! splits, which URL to fetch, how the multi-location multi-part retry
//! protocol advances, which output name a format gets, and what finishing
//! a task writes into the result store and the progress tracker.

use vstd::prelude::*;
use vstd::string::StrSliceExecFns;
use vstd::string::StringExecFns;

use crate::cid::strip_extension;
use crate::media::{annotate_format, AnnotatedFormat, MediaFormat};
use crate::progress::ProgressTracker;
use crate::results::ResultStore;
use crate::strutil::{
    concat2, concat3, concat4, find_last_char, find_scheme_sep, last_index_of, lemma_last_index_of,
    scheme_sep_index, sep_at, str_eq_str,
};

verus! {

/// The standing configuration a worker runs under.
pub struct WorkerConfig {
    /// Directory of raw and decrypted source files.
    pub path_to_file: String,
    /// Directory of transcoded output files.
    pub path_to_transcoded_file: String,
    /// Gateway for plain blob downloads.
    pub portal_url: String,
    /// Metadata portal for encrypted blobs.
    pub portal_encrypt_url: String,
    /// Gateway for `ipfs`-scheme downloads.
    pub ipfs_gateway: String,
}

/// The component of `s` after its last `/`; all of `s` when it has none.
pub open spec fn last_component(s: Seq<char>) -> Seq<char> {
    if last_index_of(s, '/') == -1 {
        s
    } else {
        s.skip(last_index_of(s, '/') + 1)
    }
}

/// How a source identifier splits: the scheme before the first `://`, and
/// the bare content identifier — the last path component of the remainder,
/// its trailing extension stripped. `None` when no scheme separator is
/// present, which abandons the task.
pub open spec fn split_source(s: Seq<char>) -> Option<(Seq<char>, Seq<char>)> {
    let sep = scheme_sep_index(s);
    if sep == -1 {
        None
    } else {
        Some((s.take(sep), strip_extension(last_component(s.skip(sep + 3)))))
    }
}

/// Splits a source identifier into its storage-network scheme and its bare
/// content identifier.
pub fn split_source_cid(source: &str) -> (r: Option<(String, String)>)
    ensures
        match r {
            Some(p) => split_source(source@) == Some((p.0@, p.1@)),
            None => split_source(source@) is None,
        },
{
    let n = source.unicode_len();
    let sep = match find_scheme_sep(source) {
        Some(i) => i,
        None => {
            return None;
        },
    };
    let scheme = source.substring_char(0, sep);
    let rest = source.substring_char(sep + 3, n);
    proof {
        assert(rest@ =~= source@.skip(sep + 3));
        lemma_last_index_of(rest@, '/');
    }
    let rest_n = rest.unicode_len();
    let comp = match find_last_char(rest, '/') {
        Some(i) => rest.substring_char(i + 1, rest_n),
        None => rest,
    };
    proof {
        if last_index_of(rest@, '/') != -1 {
            assert(comp@ =~= rest@.skip(last_index_of(rest@, '/') + 1));
        }
        lemma_last_index_of(comp@, '.');
    }
    let comp_n = comp.unicode_len();
    let bare = match find_last_char(comp, '.') {
        Some(i) => comp.substring_char(0, i),
        None => comp,
    };
    proof {
        if last_index_of(comp@, '.') != -1 {
            assert(bare@ =~= comp@.take(last_index_of(comp@, '.')));
        }
        assert(scheme@ =~= source@.take(sep as int));
    }
    Some((String::from_str(scheme), String::from_str(bare)))
}

/// What acquisition does first for a task.
pub enum AcquireAction {
    /// The plain bytes already sit at the deterministic local path: skip
    /// acquisition entirely.
    AlreadyLocal,
    /// Encrypted source: fetch the locations metadata document from this
    /// URL, then run the multi-part protocol.
    FetchLocations {
        /// The metadata API URL, keyed by the extracted blob hash.
        url: String,
    },
    /// Plain source: one download attempt from this URL; failure abandons
    /// the task.
    FetchPlain {
        /// The scheme-chosen gateway URL.
        url: String,
    },
    /// The CID payload is malformed: abandon the task, no retry.
    Abandon,
}

/// Decides the first acquisition step of a task: nothing when the local
/// file already exists; for an encrypted source the locations-metadata
/// fetch keyed by the extracted blob hash, or abandonment when the CID
/// payload is malformed; for a plain source one gateway download, the
/// `ipfs` scheme through the configured gateway and every other scheme
/// through the portal's blob endpoint.
pub fn plan_acquisition(
    cfg: &WorkerConfig,
    scheme: &str,
    bare_cid: &str,
    is_encrypted: bool,
    file_exists: bool,
) -> (r: AcquireAction)
    ensures
        file_exists ==> r is AlreadyLocal,
        !file_exists && is_encrypted ==> match crate::cid::blob_hash_of_encrypted_cid(bare_cid@) {
            Some(h) => r matches AcquireAction::FetchLocations { url } && url@
                == cfg.portal_encrypt_url@ + "/api/locations/"@ + h + "?types=5,3"@,
            None => r is Abandon,
        },
        !file_exists && !is_encrypted ==> (r matches AcquireAction::FetchPlain { url } && url@
            == (if scheme@ == "ipfs"@ {
            cfg.ipfs_gateway@ + "/ipfs/"@ + bare_cid@
        } else {
            cfg.portal_url@ + "/s5/blob/"@ + bare_cid@
        })),
{
    if file_exists {
        return AcquireAction::AlreadyLocal;
    }
    if is_encrypted {
        match crate::cid::get_base64_url_encrypted_blob_hash(bare_cid) {
            Some(h) => AcquireAction::FetchLocations {
                url: concat4(
                    cfg.portal_encrypt_url.as_str(),
                    "/api/locations/",
                    h.as_str(),
                    "?types=5,3",
                ),
            },
            None => AcquireAction::Abandon,
        }
    } else {
        if str_eq_str(scheme, "ipfs") {
            AcquireAction::FetchPlain {
                url: concat3(cfg.ipfs_gateway.as_str(), "/ipfs/", bare_cid),
            }
        } else {
            AcquireAction::FetchPlain {
                url: concat3(cfg.portal_url.as_str(), "/s5/blob/", bare_cid),
            }
        }
    }
}

/// Whether a part URL has the minimum structure acquisition demands: a
/// scheme separator and a path component beyond the host — a `/` after the
/// separator with at least one character following it.
pub open spec fn url_has_path(s: Seq<char>) -> bool {
    let sep = scheme_sep_index(s);
    sep != -1 && exists|j: int| sep + 3 <= j && j + 1 < s.len() && s[j] == '/'
}

/// Validates the minimum structure of a part URL.
pub fn check_url_has_path(s: &str) -> (r: bool)
    ensures
        r == url_has_path(s@),
{
    let n = s.unicode_len();
    let sep = match find_scheme_sep(s) {
        Some(i) => i,
        None => {
            return false;
        },
    };
    let mut j: usize = sep + 3;
    while n - j > 1
        invariant
            sep + 3 <= j,
            j <= n,
            n == s@.len(),
            sep_at(s@, sep as int),
            scheme_sep_index(s@) == sep as int,
            forall|k: int| sep + 3 <= k < j ==> s@[k] != '/',
        decreases n - j,
    {
        if s.get_char(j) == '/' {
            return true;
        }
        j = j + 1;
    }
    proof {
        assert forall|k: int| sep + 3 <= k && k + 1 < s@.len() implies s@[k] != '/' by {
            assert(k < j);
        }
    }
    false
}

/// One alternative set of download parts for the same logical blob.
pub struct Location {
    /// The ordered sub-URLs whose bodies concatenate to the ciphertext.
    pub parts: Vec<String>,
}

/// Retries a part may consume after its first attempt.
pub const MAX_PART_RETRIES: u8 = 3;

/// The backoff delay before a part attempt: nothing before the first, then
/// 500 ms doubling per retry — 500, 1000, 2000.
pub open spec fn retry_delay_of(attempt: int) -> int {
    if attempt <= 0 {
        0
    } else if attempt == 1 {
        500
    } else if attempt == 2 {
        1000
    } else {
        2000
    }
}

/// Where the multi-part protocol stands: which location and part are being
/// attempted, how many retries the part has consumed, and whether the
/// current location has written any bytes into the ciphertext file yet.
#[derive(Clone, Copy)]
pub struct AcquireState {
    /// Index of the location being tried.
    pub location_idx: usize,
    /// Index of the part being attempted within that location.
    pub part_idx: usize,
    /// Retries the current part has consumed, at most `MAX_PART_RETRIES`.
    pub attempt: u8,
    /// Whether the current location has contributed bytes yet.
    pub wrote_any: bool,
}

/// What one part attempt came to: a download of so many bytes, or none.
pub enum PartOutcome {
    /// The part downloaded with this size; zero bytes counts as a failure.
    Fetched {
        /// Size of the downloaded temporary file.
        size: u64,
    },
    /// The download failed outright.
    Failed,
}

/// What the protocol asks the caller to do next.
pub enum AcquireStep {
    /// Wait out the delay, then download this part into a temporary file,
    /// append its bytes to the ciphertext file, remove the temporary file
    /// whatever happened, and report the outcome. When the state this step
    /// was decided from stands at a location's first part with no retries
    /// consumed and nothing written, the caller truncates the ciphertext
    /// file first: each location rebuilds it from the start.
    Fetch {
        /// The part URL to download.
        url: String,
        /// Backoff before the attempt, in milliseconds.
        delay_ms: u64,
    },
    /// Every part of the location concatenated in order: the ciphertext
    /// file is complete.
    Done,
    /// All locations failed: the task fails acquisition.
    Abandon,
}

/// Where the protocol turns next from location `loc`, part `part`: the
/// coordinates of the next part to attempt, completion when the location's
/// parts are exhausted after writing bytes, or abandonment when the
/// locations are. A part URL without the minimum structure fails its whole
/// location, as does exhaustion without bytes; the next location starts
/// from its first part.
pub open spec fn spec_next_fetch(
    locations: Seq<Location>,
    loc: int,
    part: int,
    wrote: bool,
) -> Option<(int, int)>
    decreases locations.len() - loc,
{
    if loc < 0 || loc >= locations.len() {
        None
    } else if part >= locations[loc].parts@.len() {
        if wrote {
            Some((loc, part))
        } else {
            spec_next_fetch(locations, loc + 1, 0, false)
        }
    } else if !url_has_path(locations[loc].parts@[part]@) {
        spec_next_fetch(locations, loc + 1, 0, false)
    } else {
        Some((loc, part))
    }
}

/// The opening state of the protocol: first location, first part.
pub fn acquire_start() -> (r: AcquireState)
    ensures
        r.location_idx == 0,
        r.part_idx == 0,
        r.attempt == 0,
        !r.wrote_any,
{
    AcquireState { location_idx: 0, part_idx: 0, attempt: 0, wrote_any: false }
}

/// Decides the next step of the multi-part protocol and the state it is
/// taken from. Skipping to a later location resets the part index, the
/// retry count and the written flag; within the current part, the step
/// carries the backoff delay its retry count has earned.
pub fn acquire_next(locations: &Vec<Location>, st: AcquireState) -> (r: (AcquireState, AcquireStep))
    requires
        st.attempt <= MAX_PART_RETRIES,
    ensures
        match spec_next_fetch(
            locations@,
            st.location_idx as int,
            st.part_idx as int,
            st.wrote_any,
        ) {
            Some(lp) => {
                if lp.1 < locations@[lp.0].parts@.len() {
                    &&& r.0.location_idx == lp.0
                    &&& r.0.part_idx == lp.1
                    &&& (r.1 matches AcquireStep::Fetch { url, delay_ms } && url@
                        == locations@[lp.0].parts@[lp.1]@ && delay_ms == retry_delay_of(
                        r.0.attempt as int,
                    ))
                    &&& (if lp.0 == st.location_idx as int {
                        r.0 == st
                    } else {
                        r.0.attempt == 0 && !r.0.wrote_any
                    })
                } else {
                    &&& r.0 == st
                    &&& r.1 is Done
                }
            },
            None => {
                &&& r.1 is Abandon
            },
        },
{
    if st.location_idx >= locations.len() {
        return (st, AcquireStep::Abandon);
    }
    let mut loc = st.location_idx;
    let mut part = st.part_idx;
    let mut attempt = st.attempt;
    let mut wrote = st.wrote_any;
    let mut moved = false;
    loop
        invariant
            attempt <= MAX_PART_RETRIES,
            spec_next_fetch(locations@, loc as int, part as int, wrote) == spec_next_fetch(
                locations@,
                st.location_idx as int,
                st.part_idx as int,
                st.wrote_any,
            ),
            moved ==> part == 0 && attempt == 0 && !wrote && loc > st.location_idx,
            !moved ==> loc == st.location_idx && part == st.part_idx && attempt == st.attempt
                && wrote == st.wrote_any,
            loc <= locations@.len(),
        decreases locations@.len() - loc + 1,
    {
        if loc >= locations.len() {
            return (
                AcquireState { location_idx: loc, part_idx: part, attempt, wrote_any: wrote },
                AcquireStep::Abandon,
            );
        }
        let parts_len = locations[loc].parts.len();
        if part >= parts_len {
            if wrote {
                return (
                    AcquireState { location_idx: loc, part_idx: part, attempt, wrote_any: wrote },
                    AcquireStep::Done,
                );
            }
            loc = loc + 1;
            part = 0;
            attempt = 0;
            wrote = false;
            moved = true;
        } else if !check_url_has_path(locations[loc].parts[part].as_str()) {
            loc = loc + 1;
            part = 0;
            attempt = 0;
            wrote = false;
            moved = true;
        } else {
            let url = String::from_str(locations[loc].parts[part].as_str());
            let delay_ms: u64 = if attempt == 0 {
                0
            } else if attempt == 1 {
                500
            } else if attempt == 2 {
                1000
            } else {
                2000
            };
            let next = AcquireState { location_idx: loc, part_idx: part, attempt, wrote_any: wrote };
            return (next, AcquireStep::Fetch { url, delay_ms });
        }
    }
}

/// Advances the protocol past one reported part attempt: a download with
/// bytes moves to the next part with the retry count cleared; an empty or
/// failed download retries the part until its budget is spent, then fails
/// the whole location and moves to the next one.
pub fn acquire_advance(st: AcquireState, outcome: &PartOutcome) -> (r: AcquireState)
    requires
        st.attempt <= MAX_PART_RETRIES,
        st.part_idx < usize::MAX,
        st.location_idx < usize::MAX,
    ensures
        r.attempt <= MAX_PART_RETRIES,
        (outcome matches PartOutcome::Fetched { size } && size > 0) ==> r
            == (AcquireState {
            location_idx: st.location_idx,
            part_idx: (st.part_idx + 1) as usize,
            attempt: 0u8,
            wrote_any: true,
        }),
        (outcome matches PartOutcome::Fetched { size } && size == 0) || outcome is Failed ==> {
            if st.attempt < MAX_PART_RETRIES {
                r == (AcquireState {
                    location_idx: st.location_idx,
                    part_idx: st.part_idx,
                    attempt: (st.attempt + 1) as u8,
                    wrote_any: st.wrote_any,
                })
            } else {
                r == (AcquireState {
                    location_idx: (st.location_idx + 1) as usize,
                    part_idx: 0usize,
                    attempt: 0u8,
                    wrote_any: false,
                })
            }
        },
{
    let succeeded = match outcome {
        PartOutcome::Fetched { size } => *size > 0,
        PartOutcome::Failed => false,
    };
    if succeeded {
        AcquireState {
            location_idx: st.location_idx,
            part_idx: st.part_idx + 1,
            attempt: 0,
            wrote_any: true,
        }
    } else if st.attempt < MAX_PART_RETRIES {
        AcquireState {
            location_idx: st.location_idx,
            part_idx: st.part_idx,
            attempt: st.attempt + 1,
            wrote_any: st.wrote_any,
        }
    } else {
        AcquireState {
            location_idx: st.location_idx + 1,
            part_idx: 0,
            attempt: 0,
            wrote_any: false,
        }
    }
}

/// Folds one format's transcode outcome into the task's result list: a
/// produced output identifier appends the annotated descriptor; a failed
/// format is skipped and the list stands — a single format's failure never
/// aborts the task.
pub fn process_format_outcome(
    results: &mut Vec<AnnotatedFormat>,
    media_format: MediaFormat,
    outcome: Option<String>,
)
    ensures
        match outcome {
            Some(cid) => {
                &&& final(results)@.len() == old(results)@.len() + 1
                &&& final(results)@.drop_last() == old(results)@
                &&& final(results)@.last().id == media_format.id
                &&& final(results)@.last().ext == media_format.ext
                &&& final(results)@.last().dest == media_format.dest
                &&& final(results)@.last().cid@ == crate::media::annotated_cid(
                    media_format.dest,
                    cid@,
                )
            },
            None => final(results)@ == old(results)@,
        },
{
    match outcome {
        Some(cid) => {
            let annotated = annotate_format(media_format, cid.as_str());
            results.push(annotated);
            proof {
                assert(final(results)@.drop_last() =~= old(results)@);
            }
        },
        None => {},
    }
}

/// Finishes a task: serializes the accumulated annotated format list into
/// the result store under the task identifier, and gates the task's
/// progress to 100% across all its formats. Other tasks' results and
/// progress stand untouched.
pub fn finalize_task(
    store: &mut ResultStore,
    tracker: &mut ProgressTracker,
    task_id: &str,
    annotated: &Vec<AnnotatedFormat>,
    format_count: usize,
)
    requires
        old(store).wf(),
        old(tracker).wf(),
    ensures
        final(store).wf(),
        final(tracker).wf(),
        final(store).metadata_of(task_id@) == Some(crate::media::json_of_formats(annotated@)),
        final(tracker).percents_of(task_id@) == Some(
            Seq::new(format_count as nat, |k: int| 100u8),
        ),
        format_count > 0 ==> final(tracker).spec_overall(task_id@) == 100,
        forall|id: Seq<char>|
            id != task_id@ ==> #[trigger] final(store).metadata_of(id) == old(store).metadata_of(
                id,
            ),
        forall|id: Seq<char>|
            id != task_id@ ==> #[trigger] final(tracker).percents_of(id) == old(
                tracker,
            ).percents_of(id),
{
    let serialized = crate::media::serialize_formats(annotated);
    store.insert(task_id, serialized);
    tracker.mark_all_complete(task_id, format_count);
}

/// The deterministic local path of a task's plain source bytes.
pub fn source_file_path(cfg: &WorkerConfig, bare_cid: &str) -> (r: String)
    ensures
        r@ == cfg.path_to_file@ + bare_cid@,
{
    concat2(cfg.path_to_file.as_str(), bare_cid)
}

/// The local path the locations metadata document is downloaded to.
pub fn metadata_file_path(cfg: &WorkerConfig, bare_cid: &str) -> (r: String)
    ensures
        r@ == cfg.path_to_file@ + bare_cid@ + "_"@,
{
    concat3(cfg.path_to_file.as_str(), bare_cid, "_")
}

/// The deterministic name of a format's transcoded output:
/// `<output-dir><source-path>_<format-id>.<ext>`. An output already bearing
/// this name lets the worker skip the format, which makes partial prior
/// runs resumable.
pub fn transcoded_file_path(
    cfg: &WorkerConfig,
    source_path: &str,
    format_id: u32,
    ext: &str,
) -> (r: String)
    ensures
        r@ == cfg.path_to_transcoded_file@ + source_path@ + "_"@ + crate::media::dec_str_of(
            format_id as nat,
        ) + "."@ + ext@,
{
    let mut digits: Vec<char> = Vec::new();
    crate::media::push_dec(&mut digits, format_id);
    let id_str = crate::b64::chars_to_string(digits);
    let head = concat4(cfg.path_to_transcoded_file.as_str(), source_path, "_", id_str.as_str());
    concat3(head.as_str(), ".", ext)
}

} // verus!
