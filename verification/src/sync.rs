//! The archive synchronizer's decisions: what to do next for an archive
//! given what is known of it, how checksum sidecars are read, where an
//! archive is kept, and how long to wait between attempts of a fetch.

use vstd::prelude::*;
use vstd::string::*;
use crate::digest::{hex_decodes, is_hex_text};
use crate::klines::{
    request_error, validate_request, ArchiveRef, ArchiveRefView, HistoricalKlinesConfig,
    KlineLoadError, KlineLoadErrorView, KlineLoadRequest, LocalArchiveSource,
};
use crate::planner::{archive_views, plan_required_archives, plan_spec};
use crate::text::{
    ascii_lower, ascii_lower_text, chars_of, copy_range, first_token, lower_chars,
    skip_spaces_from, string_from_chars, to_ascii_lower, token_end_from, trim_chars, trimmed,
};

verus! {


/// The text that a byte string decodes to when every malformed sequence is
/// replaced by the replacement character.
pub uninterp spec fn utf8_lossy_text(bytes: Seq<u8>) -> Seq<char>;

/// Decodes bytes as UTF-8, replacing what is malformed.
///
/// Stands for `String::from_utf8_lossy`, whose result depends on the bytes
/// alone.
#[verifier::external_body]
pub(crate) fn utf8_lossy(bytes: &[u8]) -> (s: String)
    ensures
        s@ == utf8_lossy_text(bytes@),
{
    String::from_utf8_lossy(bytes).into_owned()
}

/// Whether a token is a SHA-256 checksum: 64 bytes, all hexadecimal digits.
pub open spec fn is_checksum_token(token: Seq<char>) -> bool {
    vstd::utf8::encode_utf8(token).len() == 64 && is_hex_text(vstd::utf8::encode_utf8(token))
}

/// What a checksum sidecar yields: its first token in lower case if that is
/// a checksum, else a complaint that quotes the trimmed payload.
pub open spec fn checksum_outcome(url: Seq<char>, text: Seq<char>) -> Result<
    Seq<char>,
    KlineLoadErrorView,
> {
    match first_token(text) {
        Some(token) if is_checksum_token(token) => Ok(ascii_lower_text(token)),
        _ => Err(KlineLoadErrorView::InvalidChecksumPayload { url, payload: trimmed(text) }),
    }
}

/// Reads the checksum out of the payload of a `.CHECKSUM` sidecar.
pub fn parse_checksum_payload(url: &str, payload: &[u8]) -> (r: Result<String, KlineLoadError>)
    ensures
        match checksum_outcome(url@, utf8_lossy_text(payload@)) {
            Ok(checksum) => r is Ok && r->Ok_0@ == checksum,
            Err(e) => r is Err && r->Err_0@ == e,
        },
{
    let text = utf8_lossy(payload);
    let chars = chars_of(text.as_str());
    let a = skip_spaces_from(&chars, 0);
    if a < chars.len() {
        let b = token_end_from(&chars, a);
        let token_chars = copy_range(&chars, a, b);
        let token = string_from_chars(&token_chars);
        let token_bytes = token.as_str().as_bytes();
        if token_bytes.len() == 64 && hex_decodes(token_bytes) {
            let lowered = lower_chars(&token_chars);
            return Ok(string_from_chars(&lowered));
        }
    }
    let kept = trim_chars(&chars);
    Err(
        KlineLoadError::InvalidChecksumPayload {
            url: url.to_string(),
            payload: string_from_chars(&kept),
        },
    )
}

/// Whether two texts are equal once ASCII letters are put in lower case.
pub open spec fn eq_ignoring_ascii_case(a: Seq<char>, b: Seq<char>) -> bool {
    ascii_lower_text(a) == ascii_lower_text(b)
}

pub fn checksums_match(actual: &str, expected: &str) -> (r: bool)
    ensures
        r == eq_ignoring_ascii_case(actual@, expected@),
{
    let a = chars_of(actual);
    let b = chars_of(expected);
    if a.len() != b.len() {
        assert(ascii_lower_text(a@).len() != ascii_lower_text(b@).len());
        return false;
    }
    let mut i: usize = 0;
    while i < a.len()
        invariant
            i <= a@.len(),
            a@.len() == b@.len(),
            a@ == actual@,
            b@ == expected@,
            forall|k: int| 0 <= k < i ==> ascii_lower(a@[k]) == ascii_lower(b@[k]),
        decreases a@.len() - i,
    {
        if to_ascii_lower(a[i]) != to_ascii_lower(b[i]) {
            assert(ascii_lower_text(a@)[i as int] != ascii_lower_text(b@)[i as int]);
            return false;
        }
        i = i + 1;
    }
    assert(ascii_lower_text(a@) =~= ascii_lower_text(b@));
    true
}

} // verus!

verus! {

/// What is known of one archive while it is synchronized.
#[derive(Debug, Clone, PartialEq, Eq)]
pub struct SyncFacts {
    /// Whether a local file was found, once looked for.
    pub local_found: Option<bool>,
    /// The checksum that the remote sidecar gives, once fetched.
    pub expected: Option<String>,
    /// The digest of the local file that was found, once computed.
    pub cached_digest: Option<String>,
    /// Whether the archive was fetched and written in this run.
    pub downloaded: bool,
    /// The digest of the file written in this run, once computed.
    pub fresh_digest: Option<String>,
}

/// What the synchronizer does next for one archive.
#[derive(Debug, Clone, PartialEq, Eq)]
pub enum SyncAction {
    /// Look for the local file.
    ProbeLocal,
    /// Fetch and read the remote checksum sidecar.
    FetchChecksum,
    /// Compute the digest of the local file.
    HashLocal,
    /// Fetch the archive and write it in place of the local file.
    Download,
    /// The archive is in place.
    Done(LocalArchiveSource),
    /// The file written does not have the expected checksum.
    Fail { expected: String, actual: String },
}

/// Mathematical content of a [`SyncFacts`].
pub struct SyncFactsView {
    pub local_found: Option<bool>,
    pub expected: Option<Seq<char>>,
    pub cached_digest: Option<Seq<char>>,
    pub downloaded: bool,
    pub fresh_digest: Option<Seq<char>>,
}

pub open spec fn option_text(s: Option<String>) -> Option<Seq<char>> {
    match s {
        Some(t) => Some(t@),
        None => None,
    }
}

impl View for SyncFacts {
    type V = SyncFactsView;

    open spec fn view(&self) -> SyncFactsView {
        SyncFactsView {
            local_found: self.local_found,
            expected: option_text(self.expected),
            cached_digest: option_text(self.cached_digest),
            downloaded: self.downloaded,
            fresh_digest: option_text(self.fresh_digest),
        }
    }
}

/// Mathematical content of a [`SyncAction`].
pub enum SyncActionView {
    ProbeLocal,
    FetchChecksum,
    HashLocal,
    Download,
    Done(LocalArchiveSource),
    Fail { expected: Seq<char>, actual: Seq<char> },
}

impl View for SyncAction {
    type V = SyncActionView;

    open spec fn view(&self) -> SyncActionView {
        match *self {
            SyncAction::ProbeLocal => SyncActionView::ProbeLocal,
            SyncAction::FetchChecksum => SyncActionView::FetchChecksum,
            SyncAction::HashLocal => SyncActionView::HashLocal,
            SyncAction::Download => SyncActionView::Download,
            SyncAction::Done(source) => SyncActionView::Done(source),
            SyncAction::Fail { expected, actual } => SyncActionView::Fail {
                expected: expected@,
                actual: actual@,
            },
        }
    }
}

/// The step that follows from what is known. A file that was found is kept
/// as it is when checksums are not verified; when they are, it is kept only
/// if its digest is the remote checksum, and fetched anew otherwise. A file
/// written in this run is accepted when checksums are not verified; when
/// they are, it must have the remote checksum, which is not fetched twice.
pub open spec fn next_action_spec(verify: bool, facts: SyncFactsView) -> SyncActionView {
    match facts.local_found {
        None => SyncActionView::ProbeLocal,
        Some(found) => if !facts.downloaded {
            if !found {
                SyncActionView::Download
            } else if !verify {
                SyncActionView::Done(LocalArchiveSource::Cached)
            } else {
                match facts.expected {
                    None => SyncActionView::FetchChecksum,
                    Some(expected) => match facts.cached_digest {
                        None => SyncActionView::HashLocal,
                        Some(actual) => if eq_ignoring_ascii_case(actual, expected) {
                            SyncActionView::Done(LocalArchiveSource::Cached)
                        } else {
                            SyncActionView::Download
                        },
                    },
                }
            }
        } else if !verify {
            SyncActionView::Done(LocalArchiveSource::Downloaded)
        } else {
            match facts.expected {
                None => SyncActionView::FetchChecksum,
                Some(expected) => match facts.fresh_digest {
                    None => SyncActionView::HashLocal,
                    Some(actual) => if eq_ignoring_ascii_case(actual, expected) {
                        SyncActionView::Done(LocalArchiveSource::Downloaded)
                    } else {
                        SyncActionView::Fail { expected, actual }
                    },
                },
            }
        },
    }
}

impl SyncFacts {
    /// Nothing is known yet.
    pub fn new() -> (facts: SyncFacts)
        ensures
            facts@ == (SyncFactsView {
                local_found: None,
                expected: None,
                cached_digest: None,
                downloaded: false,
                fresh_digest: None,
            }),
    {
        SyncFacts {
            local_found: None,
            expected: None,
            cached_digest: None,
            downloaded: false,
            fresh_digest: None,
        }
    }

    /// Records whether a local file was found.
    pub fn observe_local(&mut self, found: bool)
        ensures
            final(self)@ == (SyncFactsView { local_found: Some(found), ..old(self)@ }),
    {
        self.local_found = Some(found);
    }

    /// Records the checksum that the remote sidecar gives.
    pub fn observe_checksum(&mut self, expected: String)
        ensures
            final(self)@ == (SyncFactsView { expected: Some(expected@), ..old(self)@ }),
    {
        self.expected = Some(expected);
    }

    /// Records the digest of the local file: that of the file written in
    /// this run if there is one, else that of the file that was found.
    pub fn observe_digest(&mut self, digest: String)
        ensures
            final(self)@ == if old(self).downloaded {
                SyncFactsView { fresh_digest: Some(digest@), ..old(self)@ }
            } else {
                SyncFactsView { cached_digest: Some(digest@), ..old(self)@ }
            },
    {
        if self.downloaded {
            self.fresh_digest = Some(digest);
        } else {
            self.cached_digest = Some(digest);
        }
    }

    /// Records that the archive was fetched and written in place.
    pub fn observe_download(&mut self)
        ensures
            final(self)@ == (SyncFactsView { downloaded: true, ..old(self)@ }),
    {
        self.downloaded = true;
    }

    /// The step that follows from what is known.
    pub fn next_action(&self, verify_checksum: bool) -> (action: SyncAction)
        ensures
            action@ == next_action_spec(verify_checksum, self@),
    {
        let found = match self.local_found {
            None => {
                return SyncAction::ProbeLocal;
            },
            Some(found) => found,
        };
        if !self.downloaded {
            if !found {
                return SyncAction::Download;
            }
            if !verify_checksum {
                return SyncAction::Done(LocalArchiveSource::Cached);
            }
            match &self.expected {
                None => SyncAction::FetchChecksum,
                Some(expected) => match &self.cached_digest {
                    None => SyncAction::HashLocal,
                    Some(actual) => {
                        if checksums_match(actual.as_str(), expected.as_str()) {
                            SyncAction::Done(LocalArchiveSource::Cached)
                        } else {
                            SyncAction::Download
                        }
                    },
                },
            }
        } else {
            if !verify_checksum {
                return SyncAction::Done(LocalArchiveSource::Downloaded);
            }
            match &self.expected {
                None => SyncAction::FetchChecksum,
                Some(expected) => match &self.fresh_digest {
                    None => SyncAction::HashLocal,
                    Some(actual) => {
                        if checksums_match(actual.as_str(), expected.as_str()) {
                            SyncAction::Done(LocalArchiveSource::Downloaded)
                        } else {
                            SyncAction::Fail { expected: expected.clone(), actual: actual.clone() }
                        }
                    },
                },
            }
        }
    }
}

/// The complaint about a file written in this run that does not have the
/// expected checksum.
pub fn checksum_mismatch(path: &str, expected: String, actual: String) -> (e: KlineLoadError)
    ensures
        e@ == (KlineLoadErrorView::ChecksumMismatch {
            path: path@,
            expected: expected@,
            actual: actual@,
        }),
{
    KlineLoadError::ChecksumMismatch { path: path.to_string(), expected, actual }
}

/// An archive counts as in place only on these grounds: a file that was
/// found and either is not verified or has the remote checksum, or a file
/// written in this run that either is not verified or has the remote
/// checksum.
pub proof fn lemma_done_is_justified(verify: bool, facts: SyncFactsView)
    ensures
        next_action_spec(verify, facts) == SyncActionView::Done(LocalArchiveSource::Cached) ==> {
            &&& facts.local_found == Some(true)
            &&& !facts.downloaded
            &&& verify ==> facts.expected is Some && facts.cached_digest is Some
                && eq_ignoring_ascii_case(facts.cached_digest->Some_0, facts.expected->Some_0)
        },
        next_action_spec(verify, facts) == SyncActionView::Done(LocalArchiveSource::Downloaded)
            ==> {
            &&& facts.downloaded
            &&& verify ==> facts.expected is Some && facts.fresh_digest is Some
                && eq_ignoring_ascii_case(facts.fresh_digest->Some_0, facts.expected->Some_0)
        },
{
}

/// With verification on, a file written in this run whose digest is not the
/// remote checksum is refused, naming both; with verification off, nothing
/// is ever refused, and no checksum is fetched or computed.
pub proof fn lemma_mismatch_is_refused(verify: bool, facts: SyncFactsView)
    ensures
        verify && facts.local_found is Some && facts.downloaded && facts.expected is Some
            && facts.fresh_digest is Some && !eq_ignoring_ascii_case(
            facts.fresh_digest->Some_0,
            facts.expected->Some_0,
        ) ==> next_action_spec(verify, facts) == (SyncActionView::Fail {
            expected: facts.expected->Some_0,
            actual: facts.fresh_digest->Some_0,
        }),
        next_action_spec(verify, facts) is Fail ==> verify,
        !verify ==> !(next_action_spec(verify, facts) is FetchChecksum) && !(next_action_spec(
            verify,
            facts,
        ) is HashLocal),
{
}

/// Where a path below a root lies: the root, a separator unless the root is
/// empty or ends in one, then the path.
pub open spec fn joined_path(root: Seq<char>, relative: Seq<char>) -> Seq<char> {
    if root.len() == 0 {
        relative
    } else if root.last() == '/' {
        root + relative
    } else {
        root + "/"@ + relative
    }
}

pub fn join_path(root: &str, relative: &str) -> (path: String)
    ensures
        path@ == joined_path(root@, relative@),
{
    let chars = chars_of(root);
    let mut path = String::new();
    path.append(root);
    if chars.len() > 0 && chars[chars.len() - 1] != '/' {
        path.append("/");
    }
    path.append(relative);
    assert(path@ =~= joined_path(root@, relative@));
    path
}

/// One archive to synchronize: its descriptor and where it is kept.
#[derive(Debug, Clone, PartialEq, Eq)]
pub struct SyncTask {
    pub archive: ArchiveRef,
    pub local_path: String,
    pub checksum_url: String,
}

/// Mathematical content of a [`SyncTask`].
pub struct SyncTaskView {
    pub archive: ArchiveRefView,
    pub local_path: Seq<char>,
    pub checksum_url: Seq<char>,
}

impl View for SyncTask {
    type V = SyncTaskView;

    open spec fn view(&self) -> SyncTaskView {
        SyncTaskView {
            archive: self.archive@,
            local_path: self.local_path@,
            checksum_url: self.checksum_url@,
        }
    }
}

pub open spec fn task_views(tasks: Seq<SyncTask>) -> Seq<SyncTaskView> {
    Seq::new(tasks.len(), |i: int| tasks[i]@)
}

/// The task of one planned archive under a data root.
pub open spec fn task_of(root: Seq<char>, archive: ArchiveRefView) -> SyncTaskView {
    SyncTaskView {
        archive,
        local_path: joined_path(root, archive.relative_path),
        checksum_url: archive.url + ".CHECKSUM"@,
    }
}

impl SyncTask {
    /// The archive, in place, with where its file came from.
    pub fn local_archive(&self, source: LocalArchiveSource) -> (local: crate::klines::LocalArchive)
        ensures
            local.archive@ == self.archive@,
            local.local_path@ == self.local_path@,
            local.source == source,
    {
        crate::klines::LocalArchive {
            archive: ArchiveRef {
                kind: self.archive.kind,
                symbol: self.archive.symbol,
                period_start_ts_ms_utc: self.archive.period_start_ts_ms_utc,
                period_end_ts_ms_utc_exclusive: self.archive.period_end_ts_ms_utc_exclusive,
                url: self.archive.url.clone(),
                relative_path: self.archive.relative_path.clone(),
            },
            local_path: self.local_path.clone(),
            source,
        }
    }
}

/// The tasks of a request: one per planned archive, in planner order.
pub open spec fn tasks_spec(req: KlineLoadRequest, root: Seq<char>) -> Seq<SyncTaskView> {
    Seq::new(plan_spec(req).len(), |i: int| task_of(root, plan_spec(req)[i]))
}

/// Prepares the synchronization of a request: validates it, plans its
/// archives, and says for each where it is kept and where its checksum is
/// fetched from, in planner order.
pub fn sync_archives(req: &KlineLoadRequest, cfg: &HistoricalKlinesConfig) -> (r: Result<
    Vec<SyncTask>,
    KlineLoadError,
>)
    ensures
        match request_error(*req) {
            Some(e) => r is Err && r->Err_0@ == e,
            None => r is Ok && task_views(r->Ok_0@) == tasks_spec(*req, cfg.data_root@),
        },
{
    match validate_request(req) {
        Err(e) => {
            return Err(e);
        },
        Ok(()) => {},
    }
    let archives = match plan_required_archives(req) {
        Ok(archives) => archives,
        Err(e) => {
            return Err(e);
        },
    };
    let ghost planned = archive_views(archives@);
    let mut tasks: Vec<SyncTask> = Vec::new();
    for archive in it: archives
        invariant
            planned == archive_views(it.seq()),
            planned == plan_spec(*req),
            tasks@.len() == it.index(),
            forall|k: int|
                0 <= k < it.index() ==> (#[trigger] tasks@[k])@ == task_of(
                    cfg.data_root@,
                    planned[k],
                ),
    {
        let ghost i = it.index();
        assert(planned[i] == archive@);
        let local_path = join_path(cfg.data_root.as_str(), archive.relative_path.as_str());
        let mut checksum_url = String::new();
        checksum_url.append(archive.url.as_str());
        checksum_url.append(".CHECKSUM");
        assert(checksum_url@ =~= archive.url@ + ".CHECKSUM"@);
        tasks.push(SyncTask { archive, local_path, checksum_url });
    }
    assert(task_views(tasks@) =~= tasks_spec(*req, cfg.data_root@));
    Ok(tasks)
}

/// Two to the power `n`.
pub open spec fn two_pow(n: nat) -> nat
    decreases n,
{
    if n == 0 {
        1
    } else {
        2 * two_pow((n - 1) as nat)
    }
}

/// How long to wait before the attempt numbered `attempt`, counting the
/// retries from one: the base doubled once per earlier retry, at most ten
/// times, and never more than the largest delay that can be expressed.
pub open spec fn backoff_ms_spec(base_ms: u64, attempt: u32) -> u64 {
    let shift: nat = if attempt == 0 {
        0
    } else if attempt - 1 > 10 {
        10
    } else {
        (attempt - 1) as nat
    };
    if base_ms * two_pow(shift) > u64::MAX {
        u64::MAX
    } else {
        (base_ms * two_pow(shift)) as u64
    }
}

pub fn backoff_duration(base_ms: u64, attempt: u32) -> (ms: u64)
    ensures
        ms == backoff_ms_spec(base_ms, attempt),
{
    let shift: u32 = if attempt == 0 {
        0
    } else if attempt - 1 > 10 {
        10
    } else {
        attempt - 1
    };
    let mut factor: u64 = 1;
    let mut i: u32 = 0;
    while i < shift
        invariant
            i <= shift <= 10,
            factor == two_pow(i as nat),
            factor <= 1024,
        decreases shift - i,
    {
        proof {
            reveal_with_fuel(two_pow, 12);
        }
        factor = factor * 2;
        i = i + 1;
    }
    match base_ms.checked_mul(factor) {
        Some(ms) => ms,
        None => u64::MAX,
    }
}

/// What follows a failed attempt of a fetch.
#[derive(Debug, Clone, Copy, PartialEq, Eq, Structural)]
pub enum RetryDecision {
    /// The failure is final.
    GiveUp,
    /// Wait, then try again; `attempt` counts the retries made by then.
    Retry { attempt: u32, sleep_ms: u64 },
}

/// After a failure with `attempt` retries made so far: the failure is final
/// once `max_retries` retries were made; else one more follows its delay.
pub open spec fn retry_spec(cfg: &HistoricalKlinesConfig, attempt: u32) -> RetryDecision {
    if attempt >= cfg.max_retries {
        RetryDecision::GiveUp
    } else {
        RetryDecision::Retry {
            attempt: (attempt + 1) as u32,
            sleep_ms: backoff_ms_spec(cfg.retry_backoff_ms, (attempt + 1) as u32),
        }
    }
}

pub fn retry(cfg: &HistoricalKlinesConfig, attempt: u32) -> (d: RetryDecision)
    ensures
        d == retry_spec(cfg, attempt),
{
    if attempt >= cfg.max_retries {
        RetryDecision::GiveUp
    } else {
        let next = attempt + 1;
        RetryDecision::Retry { attempt: next, sleep_ms: backoff_duration(cfg.retry_backoff_ms, next) }
    }
}

} // verus!

verus! {

/// What the synchronizer would observe of one archive: whether a local
/// file is there, the checksum that the remote sidecar gives, the digest of
/// the local file that is there, and the digest of the file that a download
/// writes.
pub struct SyncWorld {
    pub local_found: bool,
    pub expected: Seq<char>,
    pub cached_digest: Seq<char>,
    pub fresh_digest: Seq<char>,
}

/// What is known after a step was carried out in a world.
pub open spec fn observed(facts: SyncFactsView, action: SyncActionView, world: SyncWorld) -> SyncFactsView {
    match action {
        SyncActionView::ProbeLocal => SyncFactsView {
            local_found: Some(world.local_found),
            ..facts
        },
        SyncActionView::FetchChecksum => SyncFactsView { expected: Some(world.expected), ..facts },
        SyncActionView::HashLocal => if facts.downloaded {
            SyncFactsView { fresh_digest: Some(world.fresh_digest), ..facts }
        } else {
            SyncFactsView { cached_digest: Some(world.cached_digest), ..facts }
        },
        SyncActionView::Download => SyncFactsView { downloaded: true, ..facts },
        _ => facts,
    }
}

/// The steps that the synchronizer takes in a world, the last one being its
/// verdict, as far as `fuel` steps reach.
pub open spec fn steps_taken(verify: bool, facts: SyncFactsView, world: SyncWorld, fuel: nat) -> Seq<
    SyncActionView,
>
    decreases fuel,
{
    let action = next_action_spec(verify, facts);
    if fuel == 0 || action is Done || action is Fail {
        seq![action]
    } else {
        seq![action] + steps_taken(verify, observed(facts, action, world), world, (fuel - 1) as nat)
    }
}

pub open spec fn nothing_known() -> SyncFactsView {
    SyncFactsView {
        local_found: None,
        expected: None,
        cached_digest: None,
        downloaded: false,
        fresh_digest: None,
    }
}

/// The verdict on a file written in this run.
pub open spec fn download_verdict(verify: bool, world: SyncWorld) -> SyncActionView {
    if !verify || eq_ignoring_ascii_case(world.fresh_digest, world.expected) {
        SyncActionView::Done(LocalArchiveSource::Downloaded)
    } else {
        SyncActionView::Fail { expected: world.expected, actual: world.fresh_digest }
    }
}

/// The steps of the synchronizer, case by case. A local file is kept
/// unchecked when checksums are not verified. When they are, the checksum
/// is fetched and the file's digest computed: a file with the checksum is
/// kept; another is fetched anew and judged by the checksum already
/// fetched. Where no local file is there, the archive is fetched, and with
/// verification on its checksum is fetched and its digest judged.
pub open spec fn expected_steps(verify: bool, world: SyncWorld) -> Seq<SyncActionView> {
    if world.local_found {
        if !verify {
            seq![SyncActionView::ProbeLocal, SyncActionView::Done(LocalArchiveSource::Cached)]
        } else if eq_ignoring_ascii_case(world.cached_digest, world.expected) {
            seq![
                SyncActionView::ProbeLocal,
                SyncActionView::FetchChecksum,
                SyncActionView::HashLocal,
                SyncActionView::Done(LocalArchiveSource::Cached),
            ]
        } else {
            seq![
                SyncActionView::ProbeLocal,
                SyncActionView::FetchChecksum,
                SyncActionView::HashLocal,
                SyncActionView::Download,
                SyncActionView::HashLocal,
                download_verdict(verify, world),
            ]
        }
    } else if !verify {
        seq![
            SyncActionView::ProbeLocal,
            SyncActionView::Download,
            SyncActionView::Done(LocalArchiveSource::Downloaded),
        ]
    } else {
        seq![
            SyncActionView::ProbeLocal,
            SyncActionView::Download,
            SyncActionView::FetchChecksum,
            SyncActionView::HashLocal,
            download_verdict(verify, world),
        ]
    }
}

/// Starting with nothing known, the synchronizer takes exactly the steps
/// laid down for the world it finds, and ends with a verdict within six
/// steps: a checksum is fetched at most once, and only with verification on.
pub proof fn lemma_synchronizer_steps(verify: bool, world: SyncWorld)
    ensures
        steps_taken(verify, nothing_known(), world, 6) == expected_steps(verify, world),
        expected_steps(verify, world).last() is Done || expected_steps(verify, world).last() is Fail,
{
    reveal_with_fuel(steps_taken, 7);
    assert(steps_taken(verify, nothing_known(), world, 6) =~= expected_steps(verify, world));
}

} // verus!
