//! The revision graph of a project: immutable committed steps, each undo group one commit.
//! Revision `r0` is the imported source; committed step `n` produces revision `r{n}`.
use crate::document::RevisionId;
use crate::error::{ErrorCode, PicError};
use crate::limits::ResourceLimits;
use crate::project::storage::{check_hash, is_digest_text};
use crate::text::{decimal, lemma_decimal_injective, numbered, text_eq};
use vstd::utf8::encode_utf8;
use vstd::prelude::*;

verus! {

pub const INITIAL_REVISION: &'static str = "r0";

/// The text of revision `n`: `r` and its decimal numeral.
pub open spec fn revision_text(n: nat) -> Seq<char> {
    seq!['r'] + decimal(n)
}

/// The text of the operation that produced revision `n`: `op` and its numeral.
pub open spec fn op_text(n: nat) -> Seq<char> {
    seq!['o', 'p'] + decimal(n)
}

/// The text of the `n`-th commit: `c` and its numeral.
pub open spec fn commit_text(n: nat) -> Seq<char> {
    seq!['c'] + decimal(n)
}

pub proof fn lemma_revision_text_injective(a: nat, b: nat)
    requires
        revision_text(a) == revision_text(b),
    ensures
        a == b,
{
    assert(decimal(a) =~= revision_text(a).skip(1));
    assert(decimal(b) =~= revision_text(b).skip(1));
    lemma_decimal_injective(a, b);
}

/// The identity of revision `n`.
pub fn revision_name(n: usize) -> (r: RevisionId)
    ensures
        r.0@ == revision_text(n as nat),
{
    proof {
        reveal_strlit("r");
    }
    assert("r"@ =~= seq!['r']);
    RevisionId(numbered("r", n as u64))
}

/// The identity of the operation that produced revision `n`.
pub fn op_name(n: usize) -> (s: String)
    ensures
        s@ == op_text(n as nat),
{
    proof {
        reveal_strlit("op");
    }
    assert("op"@ =~= seq!['o', 'p']);
    numbered("op", n as u64)
}

/// The identity of the `n`-th commit.
pub fn commit_name(n: usize) -> (s: String)
    ensures
        s@ == commit_text(n as nat),
{
    proof {
        reveal_strlit("c");
    }
    assert("c"@ =~= seq!['c']);
    numbered("c", n as u64)
}

/// Where committed step `n` (revision `r{n}`) comes from: the revision it edits, and the
/// commit (undo group) and position inside that commit that recorded it.
#[derive(Debug, Clone, Copy)]
pub struct StepLink {
    pub base: usize,
    pub commit: usize,
    pub position: usize,
}

/// The steps that lead from `r0` to revision `k`, in order (each a revision number).
pub open spec fn path_of(links: Seq<StepLink>, k: nat) -> Seq<nat>
    decreases k,
{
    if k == 0 || k > links.len() || links[k - 1].base >= k {
        Seq::empty()
    } else {
        path_of(links, links[k - 1].base as nat).push(k)
    }
}

/// The commit (undo group) that recorded revision `k`.
pub open spec fn group_of(links: Seq<StepLink>, k: nat) -> nat {
    links[k - 1].commit as nat
}

/// Whether position `j` of path `p` closes its group on that path: it is the last step, or
/// the next step belongs to another commit. A fork from the middle of a group thus
/// truncates that group on the new path only.
pub open spec fn is_group_end(links: Seq<StepLink>, p: Seq<nat>, j: int) -> bool {
    j + 1 == p.len() || group_of(links, p[j + 1]) != group_of(links, p[j])
}

/// The group ends among the first `i` steps of path `p`.
pub open spec fn ends_upto(links: Seq<StepLink>, p: Seq<nat>, i: nat) -> Seq<nat>
    decreases i,
{
    if i == 0 {
        Seq::empty()
    } else if is_group_end(links, p, i - 1) {
        ends_upto(links, p, (i - 1) as nat).push(p[i - 1])
    } else {
        ends_upto(links, p, (i - 1) as nat)
    }
}

/// The revisions that undo and redo move between on the history ending at `tip`:
/// `r0`, then the end of every group along the path to `tip`.
pub open spec fn boundaries_of(links: Seq<StepLink>, tip: nat) -> Seq<nat> {
    let p = path_of(links, tip);
    seq![0nat] + ends_upto(links, p, p.len())
}

/// Whether `b` is strictly increasing.
pub open spec fn increasing(b: Seq<nat>) -> bool {
    forall|i: int, j: int| 0 <= i < j < b.len() ==> b[i] < b[j]
}

/// The revision that undo (`redo == false`) or redo moves the cursor `current` to on the
/// boundaries `b`: its previous or next boundary, if `current` is a boundary and has one.
pub open spec fn cursor_move(b: Seq<nat>, current: nat, redo: bool) -> Option<nat> {
    if exists|i: int| 0 <= i < b.len() && b[i] == current {
        let i = choose|i: int| 0 <= i < b.len() && b[i] == current;
        if redo {
            if i + 1 < b.len() { Some(b[i + 1]) } else { None }
        } else {
            if i >= 1 { Some(b[i - 1]) } else { None }
        }
    } else {
        None
    }
}

/// The number of the revision that `text` names among `r0..r{len}`, if any.
pub open spec fn revision_number_of(len: nat, text: Seq<char>) -> Option<nat> {
    if exists|n: nat| n <= len && revision_text(n) == text {
        Some(choose|n: nat| n <= len && revision_text(n) == text)
    } else {
        None
    }
}

/// Every step edits an earlier revision and belongs to one of the recorded commits.
pub open spec fn links_wf(links: Seq<StepLink>, commits: nat) -> bool {
    forall|k: int|
        0 <= k < links.len() ==> (#[trigger] links[k]).base <= k && links[k].commit < commits
}

pub proof fn lemma_path_shape(links: Seq<StepLink>, commits: nat, k: nat)
    requires
        links_wf(links, commits),
        k <= links.len(),
    ensures
        increasing(path_of(links, k)),
        forall|i: int|
            0 <= i < path_of(links, k).len() ==> 1 <= #[trigger] path_of(links, k)[i] <= k,
        k >= 1 ==> path_of(links, k).len() >= 1 && path_of(links, k).last() == k,
    decreases k,
{
    if k >= 1 {
        let b = links[k - 1].base as nat;
        lemma_path_shape(links, commits, b);
    }
}

proof fn lemma_ends_shape(links: Seq<StepLink>, p: Seq<nat>, i: nat)
    requires
        increasing(p),
        i <= p.len(),
        forall|j: int| 0 <= j < p.len() ==> 1 <= #[trigger] p[j],
    ensures
        increasing(ends_upto(links, p, i)),
        forall|j: int|
            0 <= j < ends_upto(links, p, i).len() ==> 1 <= #[trigger] ends_upto(links, p, i)[j]
                && (i >= 1 ==> ends_upto(links, p, i)[j] <= p[i - 1]),
    decreases i,
{
    if i >= 1 {
        lemma_ends_shape(links, p, (i - 1) as nat);
        let prev = ends_upto(links, p, (i - 1) as nat);
        if i >= 2 {
            assert(forall|j: int| 0 <= j < prev.len() ==> #[trigger] prev[j] <= p[i - 2]);
            assert(p[i - 2] < p[i - 1]);
        }
    }
}

/// Boundaries start at `r0`, end at the tip, and never repeat.
pub proof fn lemma_boundaries_shape(links: Seq<StepLink>, commits: nat, tip: nat)
    requires
        links_wf(links, commits),
        tip <= links.len(),
    ensures
        increasing(boundaries_of(links, tip)),
        boundaries_of(links, tip).len() >= 1,
        boundaries_of(links, tip)[0] == 0,
        boundaries_of(links, tip).last() == tip,
{
    let p = path_of(links, tip);
    lemma_path_shape(links, commits, tip);
    lemma_ends_shape(links, p, p.len());
    let e = ends_upto(links, p, p.len());
    let b = boundaries_of(links, tip);
    assert(b =~= seq![0nat] + e);
    assert forall|i: int, j: int| 0 <= i < j < b.len() implies b[i] < b[j] by {
        if i == 0 {
            assert(b[j] == e[j - 1]);
        } else {
            assert(b[i] == e[i - 1] && b[j] == e[j - 1]);
        }
    }
    if tip >= 1 {
        assert(is_group_end(links, p, p.len() - 1));
        assert(e.last() == p.last());
    } else {
        assert(p.len() == 0);
    }
}

proof fn lemma_increasing_index(b: Seq<nat>, i: int)
    requires
        increasing(b),
        0 <= i < b.len(),
    ensures
        (choose|j: int| 0 <= j < b.len() && b[j] == b[i]) == i,
{
    let j = choose|j: int| 0 <= j < b.len() && b[j] == b[i];
    assert(0 <= j < b.len() && b[j] == b[i]);
    if j < i {
        assert(b[j] < b[i]);
    } else if j > i {
        assert(b[i] < b[j]);
    }
}

/// Undo and redo are inverse cursor moves on the same boundaries.
pub proof fn lemma_undo_redo_inverse(b: Seq<nat>, current: nat)
    requires
        increasing(b),
    ensures
        cursor_move(b, current, false) matches Some(p) ==> cursor_move(b, p, true) == Some(current),
        cursor_move(b, current, true) matches Some(n) ==> cursor_move(b, n, false) == Some(current),
{
    if exists|i: int| 0 <= i < b.len() && b[i] == current {
        let i = choose|i: int| 0 <= i < b.len() && b[i] == current;
        if i >= 1 {
            lemma_increasing_index(b, i - 1);
        }
        if i + 1 < b.len() {
            lemma_increasing_index(b, i + 1);
        }
    }
}

/// An error of `code` with fixed text.
fn fail<T>(code: ErrorCode, message: &str) -> (r: Result<T, PicError>)
    ensures
        r matches Err(e) && e.code == code,
{
    Err(PicError::new(code, message))
}

pub const PIXEL_SEMANTICS: &'static str = "linear_srgb_rgba32f_straight_v1";

/// A content-addressed asset: its SHA-256 name and length.
#[derive(Debug)]
pub struct AssetRef {
    pub sha256: String,
    pub bytes: u64,
}

impl Clone for AssetRef {
    fn clone(&self) -> (a: Self)
        ensures
            a.sha256@ == self.sha256@,
            a.bytes == self.bytes,
    {
        AssetRef { sha256: self.sha256.clone(), bytes: self.bytes }
    }
}

/// The same asset: equal digest and length.
pub open spec fn same_asset(a: AssetRef, b: AssetRef) -> bool {
    a.sha256@ == b.sha256@ && a.bytes == b.bytes
}

pub fn asset_eq(a: &AssetRef, b: &AssetRef) -> (r: bool)
    ensures
        r == same_asset(*a, *b),
{
    a.bytes == b.bytes && a.sha256 == b.sha256
}

/// A manifest entry naming a commit record by its digest.
#[derive(Debug)]
pub struct CommitRef {
    pub commit_id: String,
    pub sha256: String,
}

/// The project's only mutable record: source asset, cursor, redo tip and commit list.
#[derive(Debug)]
pub struct Manifest {
    pub schema_version: u32,
    pub pixel_semantics: String,
    pub engine_version: String,
    pub source: AssetRef,
    /// Provenance only, never a file dependency or a path to resolve.
    pub imported_from: String,
    pub initial_revision: RevisionId,
    pub current_revision: RevisionId,
    /// Redo follows only this tip's ancestry. All commits remain readable.
    pub tip_revision: RevisionId,
    pub commits: Vec<CommitRef>,
}

/// One committed step as read back from its commit record. `operation` is the outcome of
/// validating the step's operation and checking that its parameters are normalized.
#[derive(Debug)]
pub struct StepRecord {
    pub op_id: String,
    pub base_revision: RevisionId,
    pub revision: RevisionId,
    pub input_assets: Vec<AssetRef>,
    pub result_assets: Vec<AssetRef>,
    pub operation: Result<(), PicError>,
}

/// A commit record as read back from storage: one undo group.
#[derive(Debug)]
pub struct CommitRecord {
    pub commit_id: String,
    pub base_revision: RevisionId,
    pub revision: RevisionId,
    pub steps: Vec<StepRecord>,
}

/// The identities assigned to one step of a new commit.
#[derive(Debug)]
pub struct PlannedStep {
    pub op_id: String,
    pub base_revision: RevisionId,
    pub revision: RevisionId,
}

/// The identities of a new commit: its id, the revision it edits and the steps it adds.
#[derive(Debug)]
pub struct CommitPlan {
    pub commit_id: String,
    pub base_revision: RevisionId,
    pub revision: RevisionId,
    pub steps: Vec<PlannedStep>,
}

pub open spec fn saturating_sub(a: nat, b: nat) -> nat {
    if a >= b { (a - b) as nat } else { 0 }
}

/// Why a manifest is refused before any commit is read, if it is.
pub open spec fn manifest_refusal(m: Manifest, limits: ResourceLimits) -> Option<ErrorCode> {
    if m.pixel_semantics@ != PIXEL_SEMANTICS@ {
        Some(ErrorCode::UnsupportedVersion)
    } else if !is_digest_text(encode_utf8(m.source.sha256@)) {
        Some(ErrorCode::UnsafePath)
    } else if m.source.bytes > limits.max_input_bytes {
        Some(ErrorCode::ResourceLimit)
    } else if m.initial_revision.0@ != revision_text(0) {
        Some(ErrorCode::InvalidProject)
    } else if m.commits@.len() > limits.max_history_operations {
        Some(ErrorCode::ResourceLimit)
    } else {
        None
    }
}

/// Why the steps of a commit, from step `j` on, are refused, if they are: every step must
/// carry the next operation and revision number and edit the previous step (the first one,
/// the commit base `base`); it must depend on exactly the source asset and produce no
/// assets; its operation must validate; and the last step must be the commit's revision.
pub open spec fn steps_refusal(
    len: nat,
    source: AssetRef,
    steps: Seq<StepRecord>,
    base: Seq<char>,
    last: Seq<char>,
    j: nat,
) -> Option<ErrorCode>
    decreases steps.len() - j,
{
    if j >= steps.len() {
        if base != last { Some(ErrorCode::InvalidProject) } else { None }
    } else {
        let s = steps[j as int];
        let number = len + j + 1;
        if s.op_id@ != op_text(number) || s.revision.0@ != revision_text(number)
            || s.base_revision.0@ != base {
            Some(ErrorCode::InvalidProject)
        } else if !(s.input_assets@.len() == 1 && same_asset(s.input_assets@[0], source))
            || s.result_assets@.len() != 0 {
            Some(ErrorCode::InvalidProject)
        } else {
            match s.operation {
                Err(e) => Some(e.code),
                Ok(_) => steps_refusal(len, source, steps, revision_text(number), last, j + 1),
            }
        }
    }
}

/// Why the next commit record is refused, if it is.
pub open spec fn commit_refusal(
    links: Seq<StepLink>,
    commits: nat,
    m: Manifest,
    record: CommitRecord,
    limits: ResourceLimits,
) -> Option<ErrorCode> {
    let len = links.len();
    if record.commit_id@ != commit_text(commits + 1) || m.commits@[commits as int].commit_id@
        != record.commit_id@ {
        Some(ErrorCode::InvalidProject)
    } else if revision_number_of(len, record.base_revision.0@) is None {
        Some(ErrorCode::InvalidProject)
    } else if record.steps@.len() == 0 || record.steps@.len() > limits.max_operations {
        Some(ErrorCode::InvalidProject)
    } else if record.steps@.len() > saturating_sub(limits.max_history_operations as nat, len) {
        Some(ErrorCode::ResourceLimit)
    } else {
        steps_refusal(len, m.source, record.steps@, record.base_revision.0@, record.revision.0@, 0)
    }
}

/// The links that a commit of `count` steps editing revision `base` appends.
pub open spec fn commit_links(len: nat, base: nat, count: nat, commit: nat) -> Seq<StepLink> {
    Seq::new(
        count,
        |j: int|
            StepLink {
                base: if j == 0 { base as usize } else { (len + j) as usize },
                commit: commit as usize,
                position: j as usize,
            },
    )
}

/// Whether `text` names a boundary of the history ending at `tip`.
pub open spec fn is_boundary_text(links: Seq<StepLink>, tip: nat, text: Seq<char>) -> bool {
    exists|i: int|
        0 <= i < boundaries_of(links, tip).len() && revision_text(boundaries_of(links, tip)[i])
            == text
}

/// Why the cursor of a fully read history is refused, if it is: the tip must be committed
/// and the current revision a boundary on the tip's history.
pub open spec fn head_refusal(links: Seq<StepLink>, m: Manifest) -> Option<ErrorCode> {
    match revision_number_of(links.len(), m.tip_revision.0@) {
        None => Some(ErrorCode::InvalidProject),
        Some(t) => if is_boundary_text(links, t, m.current_revision.0@) {
            None
        } else {
            Some(ErrorCode::InvalidProject)
        },
    }
}

/// Where undo (`redo == false`) or redo moves the cursor named `current`, on the history
/// ending at the tip named `tip`, or the code of the refusal.
pub open spec fn cursor_outcome(
    links: Seq<StepLink>,
    tip: Seq<char>,
    current: Seq<char>,
    redo: bool,
) -> Result<nat, ErrorCode> {
    match revision_number_of(links.len(), tip) {
        None => Err(ErrorCode::RevisionNotFound),
        Some(t) => {
            let b = boundaries_of(links, t);
            match revision_number_of(links.len(), current) {
                Some(c) => if b.contains(c) {
                    match cursor_move(b, c, redo) {
                        Some(n) => Ok(n),
                        None => Err(ErrorCode::HistoryBoundary),
                    }
                } else {
                    Err(ErrorCode::InvalidProject)
                },
                None => Err(ErrorCode::InvalidProject),
            }
        },
    }
}

/// The current revision must be the one that the writer expected.
pub fn expect_revision(current: &str, expected: &str) -> (r: Result<(), PicError>)
    ensures
        r is Ok <==> current@ == expected@,
        r matches Err(e) ==> e.code == ErrorCode::RevisionConflict,
{
    if !text_eq(current, expected) {
        return fail(
            ErrorCode::RevisionConflict,
            "expected_revision does not match the current revision; inspect and retry",
        );
    }
    Ok(())
}

/// The committed revision graph.
#[derive(Debug)]
pub struct History {
    links: Vec<StepLink>,
    commits: usize,
    manifest_bytes: u64,
    metadata_bytes: u64,
}

impl History {
    pub closed spec fn links(&self) -> Seq<StepLink> {
        self.links@
    }

    pub closed spec fn commits(&self) -> nat {
        self.commits as nat
    }

    pub closed spec fn manifest_bytes(&self) -> nat {
        self.manifest_bytes as nat
    }

    pub closed spec fn metadata(&self) -> nat {
        self.metadata_bytes as nat
    }

    pub open spec fn wf(&self) -> bool {
        links_wf(self.links(), self.commits()) && self.metadata() >= self.manifest_bytes()
            && self.commits() <= self.links().len()
    }

    /// Manifest plus commit record bytes read so far.
    pub fn metadata_bytes(&self) -> (n: u64)
        ensures
            n == self.metadata(),
    {
        self.metadata_bytes
    }

    /// The number of committed steps.
    pub fn len(&self) -> (n: usize)
        ensures
            n == self.links().len(),
    {
        self.links.len()
    }

    /// The number of commits (undo groups).
    pub fn commit_count(&self) -> (n: usize)
        ensures
            n == self.commits(),
    {
        self.commits
    }

    /// Where committed step `n` was recorded.
    pub fn link(&self, n: usize) -> (l: StepLink)
        requires
            1 <= n <= self.links().len(),
        ensures
            l == self.links()[n - 1],
    {
        self.links[n - 1]
    }

    /// The number of the committed revision that `revision` names, if any.
    pub fn revision_number(&self, revision: &str) -> (r: Option<usize>)
        ensures
            r matches Some(n) ==> n <= self.links().len() && revision_text(n as nat) == revision@,
            r is None <==> revision_number_of(self.links().len(), revision@) is None,
            r matches Some(n) ==> revision_number_of(self.links().len(), revision@) == Some(n as nat),
    {
        let wanted = String::from_str(revision);
        let len = self.links.len();
        let mut n: usize = 0;
        loop
            invariant
                n <= len,
                len == self.links@.len(),
                wanted@ == revision@,
                forall|m: nat| m < n ==> revision_text(m) != revision@,
            decreases len - n,
        {
            let name = revision_name(n);
            if name.0 == wanted {
                proof {
                    let c = choose|m: nat| m <= len && revision_text(m) == revision@;
                    lemma_revision_text_injective(c, n as nat);
                }
                return Some(n);
            }
            if n == len {
                return None;
            }
            n += 1;
        }
    }

    /// A revision must be `r0` or committed.
    pub fn require_revision(&self, revision: &str) -> (r: Result<usize, PicError>)
        ensures
            match r {
                Ok(n) => revision_number_of(self.links().len(), revision@) == Some(n as nat),
                Err(e) => revision_number_of(self.links().len(), revision@) is None
                    && e.code == ErrorCode::RevisionNotFound,
            },
    {
        match self.revision_number(revision) {
            Some(n) => Ok(n),
            None => fail(ErrorCode::RevisionNotFound, "revision is not committed"),
        }
    }

    /// The steps from `r0` to revision `k`, oldest first.
    pub fn path(&self, k: usize) -> (p: Vec<usize>)
        requires
            self.wf(),
            k <= self.links().len(),
        ensures
            p@.len() == path_of(self.links(), k as nat).len(),
            forall|i: int| 0 <= i < p@.len() ==> p@[i] as nat == path_of(self.links(), k as nat)[i],
    {
        let ghost links = self.links@;
        let ghost target = path_of(links, k as nat);
        let mut chain: Vec<usize> = Vec::new();
        let mut cursor = k;
        while cursor != 0
            invariant
                links == self.links@,
                links_wf(links, self.commits as nat),
                cursor <= k <= links.len(),
                target == path_of(links, k as nat),
                target =~= path_of(links, cursor as nat) + Seq::new(
                    chain@.len(),
                    |i: int| chain@[chain@.len() - 1 - i] as nat,
                ),
            decreases cursor,
        {
            let link = self.links[cursor - 1];
            let ghost before = chain@;
            chain.push(cursor);
            proof {
                assert(links[cursor - 1].base <= cursor - 1);
                assert(path_of(links, cursor as nat) == path_of(links, link.base as nat).push(
                    cursor as nat,
                ));
                let old_tail = Seq::new(before.len(), |i: int| before[before.len() - 1 - i] as nat);
                let new_tail = Seq::new(chain@.len(), |i: int| chain@[chain@.len() - 1 - i] as nat);
                assert(new_tail =~= seq![cursor as nat] + old_tail);
                assert(path_of(links, link.base as nat) + new_tail =~= path_of(links, cursor as nat)
                    + old_tail);
            }
            cursor = link.base;
        }
        let mut p: Vec<usize> = Vec::new();
        let mut i: usize = chain.len();
        while i > 0
            invariant
                i <= chain@.len(),
                p@.len() == chain@.len() - i,
                target =~= Seq::new(chain@.len(), |j: int| chain@[chain@.len() - 1 - j] as nat),
                forall|j: int| 0 <= j < p@.len() ==> p@[j] as nat == target[j],
            decreases i,
        {
            i -= 1;
            p.push(chain[i]);
        }
        p
    }

    /// The boundary revision numbers of the history ending at `tip`.
    pub fn boundary_numbers(&self, tip: usize) -> (b: Vec<usize>)
        requires
            self.wf(),
            tip <= self.links().len(),
        ensures
            b@.len() == boundaries_of(self.links(), tip as nat).len(),
            forall|i: int|
                0 <= i < b@.len() ==> b@[i] as nat == boundaries_of(self.links(), tip as nat)[i],
    {
        let ghost links = self.links@;
        let p = self.path(tip);
        let ghost pv = path_of(links, tip as nat);
        proof {
            lemma_path_shape(links, self.commits as nat, tip as nat);
        }
        let mut b: Vec<usize> = Vec::new();
        b.push(0);
        let mut i: usize = 0;
        while i < p.len()
            invariant
                links == self.links@,
                links_wf(links, self.commits as nat),
                pv == path_of(links, tip as nat),
                p@.len() == pv.len(),
                forall|j: int| 0 <= j < p@.len() ==> p@[j] as nat == pv[j],
                forall|j: int| 0 <= j < pv.len() ==> 1 <= #[trigger] pv[j] <= tip,
                tip <= links.len(),
                i <= p@.len(),
                b@.len() == 1 + ends_upto(links, pv, i as nat).len(),
                b@[0] == 0,
                forall|j: int|
                    1 <= j < b@.len() ==> b@[j] as nat == ends_upto(links, pv, i as nat)[j - 1],
            decreases p@.len() - i,
        {
            let here = p[i];
            assert(1 <= pv[i as int] <= tip);
            let end = if i + 1 == p.len() {
                true
            } else {
                let next = p[i + 1];
                assert(1 <= pv[i + 1] <= tip);
                self.links[next - 1].commit != self.links[here - 1].commit
            };
            assert(end == is_group_end(links, pv, i as int));
            if end {
                b.push(here);
            }
            i += 1;
        }
        proof {
            assert(boundaries_of(links, tip as nat) =~= seq![0nat] + ends_upto(links, pv, pv.len()));
        }
        b
    }
}

impl History {
    /// Admit a manifest before reading its commits: supported pixel semantics, a digest
    /// source reference within the input limit, `r0` as initial revision and at most the
    /// history limit of commits.
    pub fn begin(manifest: &Manifest, manifest_bytes: u64, limits: &ResourceLimits) -> (r: Result<
        History,
        PicError,
    >)
        ensures
            match r {
                Ok(h) => manifest_refusal(*manifest, *limits) is None && h.wf() && h.links().len()
                    == 0 && h.commits() == 0 && h.metadata() == manifest_bytes
                    && h.manifest_bytes() == manifest_bytes,
                Err(e) => manifest_refusal(*manifest, *limits) == Some(e.code),
            },
    {
        if !text_eq(manifest.pixel_semantics.as_str(), PIXEL_SEMANTICS) {
            return fail(ErrorCode::UnsupportedVersion, "unsupported pixel_semantics");
        }
        check_hash(manifest.source.sha256.as_str())?;
        if manifest.source.bytes > limits.max_input_bytes {
            return fail(ErrorCode::ResourceLimit, "source asset exceeds byte limit");
        }
        let initial = revision_name(0);
        if !(manifest.initial_revision.0 == initial.0) {
            return fail(ErrorCode::InvalidProject, "invalid initial revision");
        }
        if manifest.commits.len() > limits.max_history_operations {
            return fail(ErrorCode::ResourceLimit, "project exceeds history limit");
        }
        Ok(History {
            links: Vec::new(),
            commits: 0,
            manifest_bytes,
            metadata_bytes: manifest_bytes,
        })
    }

    /// The most bytes that the next commit record may have within the project budget.
    pub fn read_limit(&self, limits: &ResourceLimits) -> (n: u64)
        ensures
            n == saturating_sub(limits.max_project_bytes as nat, self.metadata()),
    {
        limits.max_project_bytes.saturating_sub(self.metadata_bytes)
    }

    /// Admit the next commit record (`bytes` long) named by the manifest, in manifest order.
    /// Nothing changes when it is refused.
    pub fn add_commit(
        &mut self,
        manifest: &Manifest,
        record: &CommitRecord,
        bytes: u64,
        limits: &ResourceLimits,
    ) -> (r: Result<(), PicError>)
        requires
            old(self).wf(),
            old(self).commits() < manifest.commits@.len(),
            bytes <= saturating_sub(limits.max_project_bytes as nat, old(self).metadata()),
        ensures
            match r {
                Ok(()) => {
                    let len = old(self).links().len();
                    &&& commit_refusal(old(self).links(), old(self).commits(), *manifest, *record, *limits) is None
                    &&& revision_number_of(len, record.base_revision.0@) matches Some(base)
                    &&& final(self).links() == old(self).links() + commit_links(len, base, record.steps@.len(), old(self).commits())
                    &&& final(self).commits() == old(self).commits() + 1
                    &&& final(self).metadata() == old(self).metadata() + bytes
                    &&& final(self).manifest_bytes() == old(self).manifest_bytes()
                    &&& final(self).wf()
                },
                Err(e) => commit_refusal(old(self).links(), old(self).commits(), *manifest, *record, *limits)
                    == Some(e.code) && *final(self) == *old(self),
            },
    {
        let len = self.links.len();
        let index = self.commits;
        let listed = manifest.commits.len();
        assert(index < listed);
        let expected = commit_name(index + 1);
        if !(record.commit_id == expected) || !(manifest.commits[index].commit_id == record.commit_id) {
            return fail(ErrorCode::InvalidProject, "commit IDs must be unique and match the manifest order");
        }
        let base_number = match self.revision_number(record.base_revision.0.as_str()) {
            Some(n) => n,
            None => {
                return fail(
                    ErrorCode::InvalidProject,
                    "commit base is not an earlier committed revision",
                );
            },
        };
        let count = record.steps.len();
        if count == 0 || count > limits.max_operations {
            return fail(ErrorCode::InvalidProject, "commit must contain 1..max_operations steps");
        }
        if count > limits.max_history_operations.saturating_sub(len) {
            return fail(ErrorCode::ResourceLimit, "project exceeds history operation limit");
        }
        let ghost steps = record.steps@;
        let ghost source = manifest.source;
        let ghost last = record.revision.0@;
        let mut base = record.base_revision.0.clone();
        assert(commit_refusal(old(self).links(), old(self).commits(), *manifest, *record, *limits)
            == steps_refusal(len as nat, source, steps, record.base_revision.0@, last, 0));
        let mut j: usize = 0;
        while j < count
            invariant
                *self == *old(self),
                commit_refusal(old(self).links(), old(self).commits(), *manifest, *record, *limits)
                    == steps_refusal(len as nat, source, steps, record.base_revision.0@, last, 0),
                revision_number_of(len as nat, record.base_revision.0@) == Some(base_number as nat),
                base_number <= len,
                index == self.commits,
                count == steps.len(),
                steps == record.steps@,
                source == manifest.source,
                last == record.revision.0@,
                len == self.links@.len(),
                len + count <= limits.max_history_operations,
                j <= count,
                j == 0 ==> base@ == record.base_revision.0@,
                j > 0 ==> base@ == revision_text((len + j) as nat),
                steps_refusal(len as nat, source, steps, record.base_revision.0@, last, 0)
                    == steps_refusal(len as nat, source, steps, base@, last, j as nat),
            decreases count - j,
        {
            let step = &record.steps[j];
            let number = len + j + 1;
            if !(step.op_id == op_name(number)) || !(step.revision.0 == revision_name(number).0)
                || !(step.base_revision.0 == base) {
                return fail(ErrorCode::InvalidProject, "invalid operation identity or revision chain");
            }
            if !(step.input_assets.len() == 1 && asset_eq(&step.input_assets[0], &manifest.source))
                || step.result_assets.len() != 0 {
                return fail(
                    ErrorCode::InvalidProject,
                    "single-image operations must depend on the source asset and have no result assets",
                );
            }
            match &step.operation {
                Err(e) => {
                    assert(steps[j as int].operation == Err::<(), PicError>(*e));
                    assert(steps_refusal(len as nat, source, steps, base@, last, j as nat) == Some(e.code));
                    return Err(PicError { code: e.code, message: e.message.clone() });
                },
                Ok(()) => {},
            }
            base = revision_name(number).0;
            j += 1;
        }
        if !(base == record.revision.0) {
            return fail(ErrorCode::InvalidProject, "commit output must be its last step revision");
        }
        let ghost old_links = self.links@;
        let mut k: usize = 0;
        while k < count
            invariant
                len == old_links.len(),
                len + count <= limits.max_history_operations,
                base_number <= len,
                k <= count,
                index == self.commits,
                self.commits == old(self).commits,
                self.metadata_bytes == old(self).metadata_bytes,
                self.manifest_bytes == old(self).manifest_bytes,
                self.links@ == old_links + commit_links(len as nat, base_number as nat, k as nat, index as nat),
            decreases count - k,
        {
            let link_base = if k == 0 { base_number } else { len + k };
            self.links.push(StepLink { base: link_base, commit: index, position: k });
            proof {
                assert(commit_links(len as nat, base_number as nat, (k + 1) as nat, index as nat)
                    =~= commit_links(len as nat, base_number as nat, k as nat, index as nat).push(
                    StepLink { base: link_base, commit: index, position: k },
                ));
            }
            k += 1;
        }
        self.commits = index + 1;
        assert(self.metadata_bytes + bytes <= limits.max_project_bytes || bytes == 0);
        self.metadata_bytes = if bytes == 0 { self.metadata_bytes } else { self.metadata_bytes + bytes };
        proof {
            let links = self.links@;
            assert forall|i: int| 0 <= i < links.len() implies (#[trigger] links[i]).base <= i
                && links[i].commit < self.commits by {
                if i >= len {
                    assert(links[i] == commit_links(len as nat, base_number as nat, count as nat, index as nat)[i - len]);
                } else {
                    assert(links[i] == old_links[i]);
                }
            }
        }
        Ok(())
    }

    /// After every commit is read: the tip must be committed and the cursor a boundary on
    /// the tip's history.
    pub fn finish(&self, manifest: &Manifest) -> (r: Result<(), PicError>)
        requires
            self.wf(),
        ensures
            match r {
                Ok(()) => head_refusal(self.links(), *manifest) is None,
                Err(e) => head_refusal(self.links(), *manifest) == Some(e.code),
            },
            r is Ok ==> revision_number_of(self.links().len(), manifest.tip_revision.0@) is Some
                && is_boundary_text(
                self.links(),
                revision_number_of(self.links().len(), manifest.tip_revision.0@)->0,
                manifest.current_revision.0@,
            ),
    {
        let tip = match self.revision_number(manifest.tip_revision.0.as_str()) {
            Some(t) => t,
            None => return fail(ErrorCode::InvalidProject, "tip revision is not committed"),
        };
        if self.boundary_position(tip, manifest.current_revision.0.as_str()).is_none() {
            return fail(
                ErrorCode::InvalidProject,
                "current revision is not a group boundary on the active history",
            );
        }
        Ok(())
    }

    /// The position of the boundary named `current` on the history ending at `tip`, if any.
    fn boundary_position(&self, tip: usize, current: &str) -> (r: Option<(Vec<usize>, usize)>)
        requires
            self.wf(),
            tip <= self.links().len(),
        ensures
            r is None <==> !is_boundary_text(self.links(), tip as nat, current@),
            r matches Some((b, i)) ==> {
                &&& b@.len() == boundaries_of(self.links(), tip as nat).len()
                &&& (forall|j: int| 0 <= j < b@.len() ==> b@[j] as nat == boundaries_of(self.links(), tip as nat)[j])
                &&& 0 <= i < b@.len()
                &&& revision_text(b@[i as int] as nat) == current@
            },
    {
        let b = self.boundary_numbers(tip);
        let wanted = String::from_str(current);
        let mut i: usize = 0;
        while i < b.len()
            invariant
                b@.len() == boundaries_of(self.links(), tip as nat).len(),
                forall|j: int| 0 <= j < b@.len() ==> b@[j] as nat == boundaries_of(self.links(), tip as nat)[j],
                wanted@ == current@,
                i <= b@.len(),
                forall|j: int| 0 <= j < i ==> revision_text(#[trigger] boundaries_of(self.links(), tip as nat)[j]) != current@,
            decreases b@.len() - i,
        {
            if revision_name(b[i]).0 == wanted {
                return Some((b, i));
            }
            i += 1;
        }
        None
    }

    /// Where undo (`redo == false`) or redo moves the cursor: the previous or next group
    /// boundary on the history ending at `tip`.
    pub fn cursor_target(&self, tip: &str, current: &str, redo: bool) -> (r: Result<usize, PicError>)
        requires
            self.wf(),
        ensures
            match r {
                Ok(n) => cursor_outcome(self.links(), tip@, current@, redo) == Ok::<nat, ErrorCode>(n as nat),
                Err(e) => cursor_outcome(self.links(), tip@, current@, redo) == Err::<nat, ErrorCode>(e.code),
            },
    {
        let t = self.require_revision(tip)?;
        let ghost links = self.links@;
        let ghost bs = boundaries_of(links, t as nat);
        proof {
            lemma_boundaries_shape(links, self.commits as nat, t as nat);
        }
        let (b, i) = match self.boundary_position(t, current) {
            Some(found) => found,
            None => {
                proof {
                    if let Some(c) = revision_number_of(links.len(), current@) {
                        if bs.contains(c) {
                            let j = choose|j: int| 0 <= j < bs.len() && bs[j] == c;
                            assert(revision_text(bs[j]) == current@);
                        }
                    }
                }
                return fail(ErrorCode::InvalidProject, "current revision is outside active history");
            },
        };
        proof {
            let c = b@[i as int] as nat;
            assert(bs[i as int] == c);
            assert(forall|j: int| 0 <= j < bs.len() ==> #[trigger] bs[j] <= t) by {
                assert forall|j: int| 0 <= j < bs.len() implies #[trigger] bs[j] <= t by {
                    if j < bs.len() - 1 {
                        assert(bs[j] < bs[bs.len() - 1]);
                    }
                }
            }
            let w = choose|m: nat| m <= links.len() && revision_text(m) == current@;
            assert(c <= links.len());
            lemma_revision_text_injective(w, c);
            assert(revision_number_of(links.len(), current@) == Some(c));
            assert(bs.contains(c));
            lemma_increasing_index(bs, i as int);
        }
        if redo {
            if i < b.len() - 1 {
                Ok(b[i + 1])
            } else {
                fail(ErrorCode::HistoryBoundary, "no active redo group")
            }
        } else {
            if i >= 1 {
                Ok(b[i - 1])
            } else {
                fail(ErrorCode::HistoryBoundary, "no group to undo")
            }
        }
    }
}

impl History {
    /// The identities of a new commit of `count` steps editing revision `base`: commit
    /// `c{commits+1}`, then operations `op{len+1}..` producing `r{len+1}..`, each step
    /// editing the previous one. The new revision becomes both cursor and tip.
    pub fn plan_commit(&self, base: &str, count: usize, limits: &ResourceLimits) -> (r: Result<
        CommitPlan,
        PicError,
    >)
        requires
            self.wf(),
        ensures
            match r {
                Ok(plan) => {
                    let len = self.links().len();
                    &&& revision_number_of(len, base@) is Some
                    &&& 1 <= count <= saturating_sub(limits.max_history_operations as nat, len)
                    &&& plan.commit_id@ == commit_text(self.commits() + 1)
                    &&& plan.base_revision.0@ == base@
                    &&& plan.revision.0@ == revision_text((len + count) as nat)
                    &&& plan.steps@.len() == count
                    &&& forall|j: int| 0 <= j < count ==> {
                        &&& (#[trigger] plan.steps@[j]).op_id@ == op_text((len + j + 1) as nat)
                        &&& plan.steps@[j].revision.0@ == revision_text((len + j + 1) as nat)
                        &&& plan.steps@[j].base_revision.0@ == if j == 0 { base@ } else { revision_text((len + j) as nat) }
                    }
                },
                Err(e) => if revision_number_of(self.links().len(), base@) is None {
                    e.code == ErrorCode::RevisionNotFound
                } else if count == 0 {
                    e.code == ErrorCode::InvalidArgument
                } else {
                    count > saturating_sub(limits.max_history_operations as nat, self.links().len())
                        && e.code == ErrorCode::ResourceLimit
                },
            },
    {
        self.require_revision(base)?;
        if count == 0 {
            return fail(ErrorCode::InvalidArgument, "project apply requires at least one operation");
        }
        let len = self.links.len();
        if count > limits.max_history_operations.saturating_sub(len) {
            return fail(ErrorCode::ResourceLimit, "project exceeds history operation limit");
        }
        let commits = self.commits;
        assert(commits <= len);
        let mut steps: Vec<PlannedStep> = Vec::new();
        let mut previous = RevisionId(String::from_str(base));
        let mut j: usize = 0;
        while j < count
            invariant
                len + count <= limits.max_history_operations,
                j <= count,
                steps@.len() == j,
                j == 0 ==> previous.0@ == base@,
                j > 0 ==> previous.0@ == revision_text((len + j) as nat),
                forall|i: int| 0 <= i < j ==> {
                    &&& (#[trigger] steps@[i]).op_id@ == op_text((len + i + 1) as nat)
                    &&& steps@[i].revision.0@ == revision_text((len + i + 1) as nat)
                    &&& steps@[i].base_revision.0@ == if i == 0 { base@ } else { revision_text((len + i) as nat) }
                },
            decreases count - j,
        {
            let number = len + j + 1;
            let revision = revision_name(number);
            let next = revision.clone();
            steps.push(PlannedStep { op_id: op_name(number), base_revision: previous, revision });
            previous = next;
            j += 1;
        }
        Ok(CommitPlan {
            commit_id: commit_name(commits + 1),
            base_revision: RevisionId(String::from_str(base)),
            revision: previous,
            steps,
        })
    }

    /// Committed records plus the new manifest must fit the project metadata budget.
    pub fn check_metadata_budget(
        &self,
        new_manifest_bytes: u64,
        added_commit_bytes: u64,
        limits: &ResourceLimits,
    ) -> (r: Result<(), PicError>)
        requires
            self.wf(),
        ensures
            r is Ok <==> self.metadata() - self.manifest_bytes() + added_commit_bytes + new_manifest_bytes
                <= limits.max_project_bytes,
            r matches Err(e) ==> e.code == ErrorCode::ResourceLimit,
    {
        let existing = self.metadata_bytes - self.manifest_bytes;
        let fits = match existing.checked_add(added_commit_bytes) {
            Some(total) => match total.checked_add(new_manifest_bytes) {
                Some(total) => total <= limits.max_project_bytes,
                None => false,
            },
            None => false,
        };
        if !fits {
            return fail(ErrorCode::ResourceLimit, "project exceeds metadata byte limit");
        }
        Ok(())
    }
}

proof fn lemma_path_prefix(links: Seq<StepLink>, extra: Seq<StepLink>, commits: nat, k: nat)
    requires
        links_wf(links, commits),
        k <= links.len(),
    ensures
        path_of(links + extra, k) == path_of(links, k),
    decreases k,
{
    if k >= 1 {
        assert((links + extra)[k - 1] == links[k - 1]);
        lemma_path_prefix(links, extra, commits, links[k - 1].base as nat);
    }
}

/// The steps `len+1 ..= len+count` in order.
pub open spec fn fresh_steps(len: nat, count: nat) -> Seq<nat> {
    Seq::new(count, |j: int| (len + j + 1) as nat)
}

proof fn lemma_commit_path(links: Seq<StepLink>, commits: nat, base: nat, count: nat, j: nat)
    requires
        links_wf(links, commits),
        base <= links.len(),
        1 <= j <= count,
        links.len() + count <= usize::MAX,
    ensures
        path_of(links + commit_links(links.len(), base, count, commits), links.len() + j)
            == path_of(links, base) + fresh_steps(links.len(), j),
    decreases j,
{
    let len = links.len();
    let all = links + commit_links(len, base, count, commits);
    assert(all[len + j - 1] == commit_links(len, base, count, commits)[j - 1]);
    if j == 1 {
        lemma_path_prefix(links, commit_links(len, base, count, commits), commits, base);
        assert(fresh_steps(len, 1) =~= seq![(len + 1) as nat]);
    } else {
        lemma_commit_path(links, commits, base, count, (j - 1) as nat);
        assert(fresh_steps(len, j) =~= fresh_steps(len, (j - 1) as nat).push((len + j) as nat));
    }
}

proof fn lemma_ends_prefix(
    links: Seq<StepLink>,
    all: Seq<StepLink>,
    p: Seq<nat>,
    q: Seq<nat>,
    i: nat,
)
    requires
        i <= p.len(),
        forall|j: int| 0 <= j < p.len() ==> 1 <= #[trigger] p[j] <= links.len(),
        forall|k: int| 0 <= k < links.len() ==> #[trigger] all[k] == links[k],
        p.len() >= 1,
        q.len() >= 1,
        group_of(all, q[0]) != group_of(links, p.last()),
        forall|j: int| 0 <= j < p.len() - 1 ==> is_group_end(links, p, j) == is_group_end(all, p + q, j),
    ensures
        ends_upto(all, p + q, i) == ends_upto(links, p, i),
    decreases i,
{
    if i >= 1 {
        lemma_ends_prefix(links, all, p, q, (i - 1) as nat);
        let j = i - 1;
        if j == p.len() - 1 {
            assert((p + q)[j + 1] == q[0]);
            assert(group_of(all, (p + q)[j]) == group_of(links, p.last()));
        }
    }
}

proof fn lemma_ends_fresh(all: Seq<StepLink>, p: Seq<nat>, s: Seq<nat>, commit: nat, i: nat)
    requires
        p.len() <= i <= p.len() + s.len(),
        s.len() >= 1,
        forall|j: int| 0 <= j < s.len() ==> group_of(all, #[trigger] s[j]) == commit,
    ensures
        ends_upto(all, p + s, i) == ends_upto(all, p + s, p.len()) + if i == p.len() + s.len() {
            seq![s.last()]
        } else {
            Seq::<nat>::empty()
        },
    decreases i,
{
    if i > p.len() {
        lemma_ends_fresh(all, p, s, commit, (i - 1) as nat);
        let j = i - 1;
        let ps = p + s;
        if j + 1 < ps.len() {
            assert(ps[j + 1] == s[j + 1 - p.len()]);
            assert(ps[j] == s[j - p.len()]);
        }
        if i == p.len() + s.len() {
            assert(ps[j] == s.last());
        }
    } else {
        assert(ends_upto(all, p + s, p.len()) + Seq::<nat>::empty() =~= ends_upto(all, p + s, p.len()));
    }
}

/// After a commit of `count >= 1` steps editing revision `base` (the new revision becoming the
/// tip): the earlier revisions keep their histories, the new tip's boundaries are `base`'s
/// boundaries followed by the new revision, undo from the new revision returns to `base`,
/// and no revision after `base` from the earlier history can be reached by redo any more.
pub proof fn commit_then_undo_returns_to_base(links: Seq<StepLink>, commits: nat, base: nat, count: nat)
    requires
        links_wf(links, commits),
        base <= links.len(),
        count >= 1,
        links.len() + count <= usize::MAX,
        commits <= usize::MAX,
    ensures
        ({
            let len = links.len();
            let all = links + commit_links(len, base, count, commits);
            let tip = len + count;
            &&& links_wf(all, commits + 1)
            &&& forall|k: nat| k <= len ==> #[trigger] path_of(all, k) == path_of(links, k)
            &&& path_of(all, tip) == path_of(links, base) + fresh_steps(len, count)
            &&& boundaries_of(all, tip) == boundaries_of(links, base).push(tip)
            &&& cursor_move(boundaries_of(all, tip), tip, false) == Some(base)
            &&& forall|t: nat| base < t <= len ==> !boundaries_of(all, tip).contains(t)
        }),
{
    let len = links.len();
    let fresh = commit_links(len, base, count, commits);
    let all = links + fresh;
    let tip = len + count;
    assert forall|k: int| 0 <= k < all.len() implies (#[trigger] all[k]).base <= k && all[k].commit
        < commits + 1 by {
        if k >= len {
            assert(all[k] == fresh[k - len]);
        } else {
            assert(all[k] == links[k]);
        }
    }
    assert forall|k: nat| k <= len implies #[trigger] path_of(all, k) == path_of(links, k) by {
        lemma_path_prefix(links, fresh, commits, k);
    }
    lemma_commit_path(links, commits, base, count, count);
    let p = path_of(links, base);
    let s = fresh_steps(len, count);
    assert(path_of(all, tip) == p + s);
    lemma_path_shape(links, commits, base);
    assert forall|j: int| 0 <= j < s.len() implies group_of(all, #[trigger] s[j]) == commits by {
        assert(all[s[j] - 1] == fresh[j]);
    }
    assert forall|k: int| 0 <= k < links.len() implies #[trigger] all[k] == links[k] by {}
    let e_base = ends_upto(links, p, p.len());
    if base == 0 {
        assert(p.len() == 0);
        assert(p + s =~= s);
        lemma_ends_fresh(all, p, s, commits, p.len() + s.len());
        assert(ends_upto(all, p + s, 0) == Seq::<nat>::empty());
        assert(ends_upto(all, p + s, (p + s).len()) =~= seq![s.last()]);
    } else {
        assert forall|j: int| 0 <= j < p.len() - 1 implies is_group_end(links, p, j)
            == is_group_end(all, p + s, j) by {
            assert((p + s)[j + 1] == p[j + 1]);
            assert((p + s)[j] == p[j]);
            assert(1 <= p[j + 1] <= links.len());
            assert(1 <= p[j] <= links.len());
        }
        assert(1 <= p.last() <= links.len());
        assert(group_of(all, s[0]) == commits);
        assert(group_of(links, p.last()) < commits);
        lemma_ends_prefix(links, all, p, s, p.len());
        lemma_ends_fresh(all, p, s, commits, p.len() + s.len());
    }
    assert(s.last() == tip);
    assert(boundaries_of(all, tip) =~= boundaries_of(links, base).push(tip));
    lemma_boundaries_shape(links, commits, base);
    lemma_boundaries_shape(all, commits + 1, tip);
    let b = boundaries_of(all, tip);
    lemma_increasing_index(b, b.len() - 1);
    assert(b[b.len() - 2] == boundaries_of(links, base).last());
    assert forall|t: nat| base < t <= len implies !b.contains(t) by {
        let bb = boundaries_of(links, base);
        if b.contains(t) {
            let i = choose|i: int| 0 <= i < b.len() && b[i] == t;
            if i < b.len() - 1 {
                assert(b[i] == bb[i]);
                if i < bb.len() - 1 {
                    assert(bb[i] < bb[bb.len() - 1]);
                }
            }
        }
    }
}

/// Undo and redo are inverse on any history: undoing then redoing (or the reverse) returns
/// the cursor to where it was; `r0` cannot be undone and the tip cannot be redone.
pub proof fn undo_and_redo_are_inverse(links: Seq<StepLink>, commits: nat, tip: nat, current: nat)
    requires
        links_wf(links, commits),
        tip <= links.len(),
    ensures
        cursor_move(boundaries_of(links, tip), current, false) matches Some(p) ==> cursor_move(
            boundaries_of(links, tip),
            p,
            true,
        ) == Some(current),
        cursor_move(boundaries_of(links, tip), current, true) matches Some(n) ==> cursor_move(
            boundaries_of(links, tip),
            n,
            false,
        ) == Some(current),
        cursor_move(boundaries_of(links, tip), 0, false) is None,
        cursor_move(boundaries_of(links, tip), tip, true) is None,
{
    lemma_boundaries_shape(links, commits, tip);
    let b = boundaries_of(links, tip);
    lemma_undo_redo_inverse(b, current);
    lemma_increasing_index(b, 0);
    lemma_increasing_index(b, b.len() - 1);
}

/// Every revision up to the last names itself.
pub proof fn lemma_revision_number_of_text(len: nat, n: nat)
    requires
        n <= len,
    ensures
        revision_number_of(len, revision_text(n)) == Some(n),
{
    assert(n <= len && revision_text(n) == revision_text(n));
    let m = choose|m: nat| m <= len && revision_text(m) == revision_text(n);
    lemma_revision_text_injective(m, n);
}

/// Undo then redo (or redo then undo) puts the cursor back on the revision it named, on the
/// history ending at the same tip; `r0` cannot be undone and the tip cannot be redone.
pub proof fn undo_then_redo_restores_the_cursor(links: Seq<StepLink>, commits: nat, tip: Seq<char>, current: Seq<char>)
    requires
        links_wf(links, commits),
    ensures
        cursor_outcome(links, tip, current, false) matches Ok(p) ==> cursor_outcome(links, tip, revision_text(p), true)
            == Ok::<nat, ErrorCode>(revision_number_of(links.len(), current)->0),
        cursor_outcome(links, tip, current, true) matches Ok(n) ==> cursor_outcome(links, tip, revision_text(n), false)
            == Ok::<nat, ErrorCode>(revision_number_of(links.len(), current)->0),
        revision_number_of(links.len(), tip) is Some ==> cursor_outcome(links, tip, revision_text(0), false)
            == Err::<nat, ErrorCode>(ErrorCode::HistoryBoundary),
        revision_number_of(links.len(), tip) is Some ==> cursor_outcome(links, tip, tip, true) == Err::<nat, ErrorCode>(
            ErrorCode::HistoryBoundary,
        ),
{
    let len = links.len();
    if let Some(t) = revision_number_of(len, tip) {
        assert(t <= len);
        lemma_boundaries_shape(links, commits, t);
        let b = boundaries_of(links, t);
        undo_and_redo_are_inverse(links, commits, t, 0);
        assert forall|k: int| 0 <= k < b.len() implies b[k] <= t by {
            if k < b.len() - 1 {
                assert(b[k] < b[b.len() - 1]);
            }
        }
        lemma_revision_number_of_text(len, 0);
        assert(b.contains(0nat)) by {
            assert(b[0] == 0);
        }
        lemma_revision_text_injective(t, t);
        assert(b.contains(t)) by {
            assert(b[b.len() - 1] == t);
        }
        lemma_revision_number_of_text(len, t);
        assert(revision_text(t) == tip);
        assert(revision_number_of(len, tip) == Some(t));
        if let Some(c) = revision_number_of(len, current) {
            lemma_undo_redo_inverse(b, c);
            if let Ok(p) = cursor_outcome(links, tip, current, false) {
                let i = choose|i: int| 0 <= i < b.len() && b[i] == c;
                assert(p == b[i - 1]);
                lemma_revision_number_of_text(len, p);
                assert(b.contains(p));
            }
            if let Ok(n) = cursor_outcome(links, tip, current, true) {
                let i = choose|i: int| 0 <= i < b.len() && b[i] == c;
                assert(n == b[i + 1]);
                lemma_revision_number_of_text(len, n);
                assert(b.contains(n));
            }
        }
    }
}

proof fn lemma_steps_accepted(
    len: nat,
    source: AssetRef,
    steps: Seq<StepRecord>,
    first: Seq<char>,
    base: Seq<char>,
    last: Seq<char>,
    j: nat,
)
    requires
        j <= steps.len(),
        steps.len() >= 1,
        last == revision_text(len + steps.len()),
        base == if j == 0 { first } else { revision_text(len + j) },
        forall|k: int|
            0 <= k < steps.len() ==> {
                let n = (len + k + 1) as nat;
                &&& (#[trigger] steps[k]).op_id@ == op_text(n)
                &&& steps[k].revision.0@ == revision_text(n)
                &&& steps[k].base_revision.0@ == if k == 0 { first } else { revision_text((n - 1) as nat) }
                &&& steps[k].input_assets@.len() == 1 && same_asset(steps[k].input_assets@[0], source)
                &&& steps[k].result_assets@.len() == 0
                &&& steps[k].operation is Ok
            },
    ensures
        steps_refusal(len, source, steps, base, last, j) is None,
    decreases steps.len() - j,
{
    if j < steps.len() {
        let s = steps[j as int];
        assert(s.op_id@ == op_text(len + j + 1));
        lemma_steps_accepted(len, source, steps, first, revision_text(len + j + 1), last, j + 1);
    }
}

/// A commit recorded as `plan_commit` numbers it (commit `c{commits+1}` of `count` steps
/// editing a committed revision, operations `op{len+1}..` producing `r{len+1}..` in one
/// chain, each reading only the source and validating) is admitted when the history is read
/// back; with its last revision as both cursor and tip, the read history passes the head
/// check, and that revision's boundaries are those of the edited revision followed by it.
pub proof fn recorded_commit_reads_back(
    links: Seq<StepLink>,
    commits: nat,
    m: Manifest,
    record: CommitRecord,
    limits: ResourceLimits,
)
    requires
        links_wf(links, commits),
        commits < m.commits@.len(),
        m.commits@[commits as int].commit_id@ == commit_text(commits + 1),
        record.commit_id@ == commit_text(commits + 1),
        revision_number_of(links.len(), record.base_revision.0@) is Some,
        1 <= record.steps@.len() <= limits.max_operations,
        record.steps@.len() <= saturating_sub(limits.max_history_operations as nat, links.len()),
        links.len() + record.steps@.len() <= usize::MAX,
        commits < usize::MAX,
        record.revision.0@ == revision_text(links.len() + record.steps@.len()),
        forall|j: int|
            0 <= j < record.steps@.len() ==> {
                let n = (links.len() + j + 1) as nat;
                &&& (#[trigger] record.steps@[j]).op_id@ == op_text(n)
                &&& record.steps@[j].revision.0@ == revision_text(n)
                &&& record.steps@[j].base_revision.0@ == if j == 0 {
                    record.base_revision.0@
                } else {
                    revision_text((n - 1) as nat)
                }
                &&& record.steps@[j].input_assets@.len() == 1 && same_asset(
                    record.steps@[j].input_assets@[0],
                    m.source,
                )
                &&& record.steps@[j].result_assets@.len() == 0
                &&& record.steps@[j].operation is Ok
            },
        m.tip_revision.0@ == record.revision.0@,
        m.current_revision.0@ == record.revision.0@,
    ensures
        commit_refusal(links, commits, m, record, limits) is None,
        ({
            let base = revision_number_of(links.len(), record.base_revision.0@)->0;
            let all = links + commit_links(links.len(), base, record.steps@.len(), commits);
            let tip = links.len() + record.steps@.len();
            &&& head_refusal(all, m) is None
            &&& boundaries_of(all, tip) == boundaries_of(links, base).push(tip)
        }),
{
    let len = links.len();
    let count = record.steps@.len();
    let base = revision_number_of(len, record.base_revision.0@)->0;
    lemma_steps_accepted(
        len,
        m.source,
        record.steps@,
        record.base_revision.0@,
        record.base_revision.0@,
        record.revision.0@,
        0,
    );
    assert(base <= len);
    commit_then_undo_returns_to_base(links, commits, base, count);
    let all = links + commit_links(len, base, count, commits);
    let tip = len + count;
    lemma_revision_number_of_text(all.len(), tip);
    let b = boundaries_of(all, tip);
    assert(revision_text(b[b.len() - 1]) == m.current_revision.0@);
}

/// The links after reading the first `n` of `records` in order, each extending the history
/// as `add_commit` does.
pub open spec fn loaded_links(records: Seq<CommitRecord>, n: nat) -> Seq<StepLink>
    decreases n,
{
    if n == 0 {
        Seq::empty()
    } else {
        let before = loaded_links(records, (n - 1) as nat);
        let r = records[n - 1];
        before + commit_links(
            before.len(),
            revision_number_of(before.len(), r.base_revision.0@)->0,
            r.steps@.len(),
            (n - 1) as nat,
        )
    }
}

proof fn lemma_steps_chain(
    len: nat,
    source: AssetRef,
    steps: Seq<StepRecord>,
    base: Seq<char>,
    last: Seq<char>,
    j: nat,
)
    requires
        j <= steps.len(),
        steps_refusal(len, source, steps, base, last, j) is None,
    ensures
        forall|k: int|
            j <= k < steps.len() ==> {
                &&& (#[trigger] steps[k]).op_id@ == op_text((len + k + 1) as nat)
                &&& steps[k].revision.0@ == revision_text((len + k + 1) as nat)
                &&& steps[k].base_revision.0@ == if k == j { base } else { revision_text((len + k) as nat) }
            },
        last == if j == steps.len() { base } else { revision_text(len + steps.len()) },
    decreases steps.len() - j,
{
    if j < steps.len() {
        lemma_steps_chain(len, source, steps, revision_text(len + j + 1), last, j + 1);
    }
}

proof fn lemma_loaded_record(m: Manifest, records: Seq<CommitRecord>, limits: ResourceLimits, i: int)
    requires
        0 <= i < records.len(),
        i < m.commits@.len(),
        commit_refusal(loaded_links(records, i as nat), i as nat, m, records[i], limits) is None,
    ensures
        ({
            let start = loaded_links(records, i as nat).len();
            &&& records[i].commit_id@ == commit_text((i + 1) as nat)
            &&& m.commits@[i].commit_id@ == commit_text((i + 1) as nat)
            &&& revision_number_of(start, records[i].base_revision.0@) is Some
            &&& records[i].steps@.len() >= 1
            &&& records[i].revision.0@ == revision_text(start + records[i].steps@.len())
            &&& loaded_links(records, (i + 1) as nat).len() == start + records[i].steps@.len()
            &&& forall|j: int|
                0 <= j < records[i].steps@.len() ==> {
                    &&& (#[trigger] records[i].steps@[j]).op_id@ == op_text((start + j + 1) as nat)
                    &&& records[i].steps@[j].revision.0@ == revision_text((start + j + 1) as nat)
                    &&& records[i].steps@[j].base_revision.0@ == if j == 0 {
                        records[i].base_revision.0@
                    } else {
                        revision_text((start + j) as nat)
                    }
                }
        }),
{
    let start = loaded_links(records, i as nat).len();
    let r = records[i];
    lemma_steps_chain(start, m.source, r.steps@, r.base_revision.0@, r.revision.0@, 0);
    assert(loaded_links(records, (i + 1) as nat) == loaded_links(records, i as nat) + commit_links(
        start,
        revision_number_of(start, r.base_revision.0@)->0,
        r.steps@.len(),
        i as nat,
    ));
}

/// Reading a manifest's commit records in order numbers everything consecutively: record
/// `i` (from zero) is commit `c{i+1}`, as the manifest lists it, and edits a revision
/// committed before it; its steps carry `op{k}` and `r{k}` for the numbers `k` that follow
/// the earlier records' steps, each editing the previous step's revision; and the record
/// ends at its last step's revision.
pub proof fn loaded_history_is_numbered_in_order(m: Manifest, records: Seq<CommitRecord>, limits: ResourceLimits)
    requires
        records.len() <= m.commits@.len(),
        forall|i: int|
            0 <= i < records.len() ==> commit_refusal(
                loaded_links(records, i as nat),
                i as nat,
                m,
                #[trigger] records[i],
                limits,
            ) is None,
    ensures
        forall|i: int|
            0 <= i < records.len() ==> {
                let start = loaded_links(records, i as nat).len();
                &&& (#[trigger] records[i]).commit_id@ == commit_text((i + 1) as nat)
                &&& m.commits@[i].commit_id@ == commit_text((i + 1) as nat)
                &&& revision_number_of(start, records[i].base_revision.0@) is Some
                &&& records[i].steps@.len() >= 1
                &&& records[i].revision.0@ == revision_text(start + records[i].steps@.len())
                &&& loaded_links(records, (i + 1) as nat).len() == start + records[i].steps@.len()
                &&& forall|j: int|
                    0 <= j < records[i].steps@.len() ==> {
                        &&& (#[trigger] records[i].steps@[j]).op_id@ == op_text((start + j + 1) as nat)
                        &&& records[i].steps@[j].revision.0@ == revision_text((start + j + 1) as nat)
                        &&& records[i].steps@[j].base_revision.0@ == if j == 0 {
                            records[i].base_revision.0@
                        } else {
                            revision_text((start + j) as nat)
                        }
                    }
            },
{
    assert forall|i: int| 0 <= i < records.len() implies {
        let start = loaded_links(records, i as nat).len();
        &&& (#[trigger] records[i]).commit_id@ == commit_text((i + 1) as nat)
        &&& m.commits@[i].commit_id@ == commit_text((i + 1) as nat)
        &&& revision_number_of(start, records[i].base_revision.0@) is Some
        &&& records[i].steps@.len() >= 1
        &&& records[i].revision.0@ == revision_text(start + records[i].steps@.len())
        &&& loaded_links(records, (i + 1) as nat).len() == start + records[i].steps@.len()
        &&& forall|j: int|
            0 <= j < records[i].steps@.len() ==> {
                &&& (#[trigger] records[i].steps@[j]).op_id@ == op_text((start + j + 1) as nat)
                &&& records[i].steps@[j].revision.0@ == revision_text((start + j + 1) as nat)
                &&& records[i].steps@[j].base_revision.0@ == if j == 0 {
                    records[i].base_revision.0@
                } else {
                    revision_text((start + j) as nat)
                }
            }
    } by {
        lemma_loaded_record(m, records, limits, i);
    }
}

/// When the head check passes on a loaded history (as `finish` reports), the tip is a
/// committed revision and the cursor is one of the group boundaries on the tip's history.
pub proof fn loaded_cursor_is_a_tip_boundary(links: Seq<StepLink>, m: Manifest)
    requires
        head_refusal(links, m) is None,
    ensures
        revision_number_of(links.len(), m.tip_revision.0@) is Some,
        is_boundary_text(links, revision_number_of(links.len(), m.tip_revision.0@)->0, m.current_revision.0@),
        exists|i: int|
            0 <= i < boundaries_of(links, revision_number_of(links.len(), m.tip_revision.0@)->0).len()
                && revision_text(boundaries_of(links, revision_number_of(links.len(), m.tip_revision.0@)->0)[i])
                == m.current_revision.0@,
{
}

impl History {
    /// The committed steps leading to the revision named `revision`, oldest first.
    pub fn steps_to(&self, revision: &str) -> (r: Result<Vec<usize>, PicError>)
        requires
            self.wf(),
        ensures
            match r {
                Ok(p) => revision_number_of(self.links().len(), revision@) matches Some(k) && p@.len()
                    == path_of(self.links(), k).len() && forall|i: int|
                    0 <= i < p@.len() ==> p@[i] as nat == path_of(self.links(), k)[i],
                Err(e) => revision_number_of(self.links().len(), revision@) is None && e.code
                    == ErrorCode::RevisionNotFound,
            },
    {
        let k = self.require_revision(revision)?;
        Ok(self.path(k))
    }

    /// Where revising the step that produced `step` begins, on the history leading to
    /// `current`: the step's position on that history and the revision number it edits.
    pub fn revise_point(&self, current: &str, step: &str) -> (r: Result<(usize, usize), PicError>)
        requires
            self.wf(),
        ensures
            match r {
                Ok((i, base)) => {
                    &&& revision_number_of(self.links().len(), current@) matches Some(c)
                    &&& i < path_of(self.links(), c).len()
                    &&& revision_text(path_of(self.links(), c)[i as int]) == step@
                    &&& base == self.links()[path_of(self.links(), c)[i as int] - 1].base
                },
                Err(e) => e.code == ErrorCode::RevisionNotFound && match revision_number_of(
                    self.links().len(),
                    current@,
                ) {
                    None => true,
                    Some(c) => forall|j: int|
                        0 <= j < path_of(self.links(), c).len() ==> revision_text(
                            #[trigger] path_of(self.links(), c)[j],
                        ) != step@,
                },
            },
    {
        let c = self.require_revision(current)?;
        proof {
            lemma_path_shape(self.links@, self.commits as nat, c as nat);
        }
        let p = self.path(c);
        let wanted = String::from_str(step);
        let mut i: usize = 0;
        while i < p.len()
            invariant
                self.wf(),
                c <= self.links().len(),
                revision_number_of(self.links().len(), current@) == Some(c as nat),
                wanted@ == step@,
                p@.len() == path_of(self.links(), c as nat).len(),
                forall|j: int| 0 <= j < p@.len() ==> p@[j] as nat == path_of(self.links(), c as nat)[j],
                forall|j: int|
                    0 <= j < path_of(self.links(), c as nat).len() ==> 1 <= #[trigger] path_of(
                        self.links(),
                        c as nat,
                    )[j] <= c,
                i <= p@.len(),
                forall|j: int|
                    0 <= j < i ==> revision_text(#[trigger] path_of(self.links(), c as nat)[j]) != step@,
            decreases p@.len() - i,
        {
            if revision_name(p[i]).0 == wanted {
                let base = self.link(p[i]).base;
                return Ok((i, base));
            }
            i += 1;
        }
        fail(ErrorCode::RevisionNotFound, "step revision is not on the current history")
    }

    /// The group boundaries (undo/redo stops) of the history ending at `revision`.
    pub fn boundaries(&self, revision: &str) -> (r: Result<Vec<RevisionId>, PicError>)
        requires
            self.wf(),
        ensures
            match r {
                Ok(v) => revision_number_of(self.links().len(), revision@) matches Some(t) && v@.len()
                    == boundaries_of(self.links(), t).len() && forall|i: int|
                    0 <= i < v@.len() ==> (#[trigger] v@[i]).0@ == revision_text(
                        boundaries_of(self.links(), t)[i],
                    ),
                Err(e) => revision_number_of(self.links().len(), revision@) is None && e.code
                    == ErrorCode::RevisionNotFound,
            },
    {
        let t = self.require_revision(revision)?;
        let b = self.boundary_numbers(t);
        let mut v: Vec<RevisionId> = Vec::new();
        let mut i: usize = 0;
        while i < b.len()
            invariant
                i <= b@.len(),
                v@.len() == i,
                b@.len() == boundaries_of(self.links(), t as nat).len(),
                forall|j: int| 0 <= j < b@.len() ==> b@[j] as nat == boundaries_of(self.links(), t as nat)[j],
                forall|j: int| 0 <= j < i ==> (#[trigger] v@[j]).0@ == revision_text(
                    boundaries_of(self.links(), t as nat)[j],
                ),
            decreases b@.len() - i,
        {
            v.push(revision_name(b[i]));
            i += 1;
        }
        Ok(v)
    }

    /// The revisions on the history ending at `tip`: `r0`, then the revision of every step
    /// on the way, oldest first.
    pub fn active_revisions(&self, tip: &str) -> (r: Result<Vec<RevisionId>, PicError>)
        requires
            self.wf(),
        ensures
            match r {
                Ok(v) => revision_number_of(self.links().len(), tip@) matches Some(t) && v@.len()
                    == path_of(self.links(), t).len() + 1 && v@[0].0@ == revision_text(0) && forall|i: int|
                    1 <= i < v@.len() ==> (#[trigger] v@[i]).0@ == revision_text(
                        path_of(self.links(), t)[i - 1],
                    ),
                Err(e) => revision_number_of(self.links().len(), tip@) is None && e.code
                    == ErrorCode::RevisionNotFound,
            },
    {
        let t = self.require_revision(tip)?;
        let p = self.path(t);
        let mut v: Vec<RevisionId> = Vec::new();
        v.push(revision_name(0));
        let mut i: usize = 0;
        while i < p.len()
            invariant
                i <= p@.len(),
                v@.len() == i + 1,
                v@[0].0@ == revision_text(0),
                p@.len() == path_of(self.links(), t as nat).len(),
                forall|j: int| 0 <= j < p@.len() ==> p@[j] as nat == path_of(self.links(), t as nat)[j],
                forall|j: int| 1 <= j < v@.len() ==> (#[trigger] v@[j]).0@ == revision_text(
                    path_of(self.links(), t as nat)[j - 1],
                ),
            decreases p@.len() - i,
        {
            v.push(revision_name(p[i]));
            i += 1;
        }
        Ok(v)
    }
}

} // verus!
