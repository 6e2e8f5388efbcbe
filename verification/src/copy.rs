//! Copying the settings of one account to another.
//!
//! A copy asks for one action at a time and takes the reply to it.

use vstd::prelude::*;

use crate::path::{is_name, names_lead_down, texts_lead_on, FsPath, PathView};

verus! {

/// Why a copy failed.
#[derive(Debug)]
pub enum CopyError {
    /// The source has no settings: this directory does not exist.
    SourceMissing(FsPath),
    /// An action failed, for the given reason.
    Failed(String),
}

/// What an error says.
pub enum CopyErrorView {
    SourceMissing(PathView),
    Failed(Seq<char>),
}

impl View for CopyError {
    type V = CopyErrorView;

    open spec fn view(&self) -> CopyErrorView {
        match self {
            CopyError::SourceMissing(p) => CopyErrorView::SourceMissing(p@),
            CopyError::Failed(e) => CopyErrorView::Failed(e@),
        }
    }
}

impl DeepView for CopyError {
    type V = CopyErrorView;

    open spec fn deep_view(&self) -> CopyErrorView {
        self@
    }
}

/// What is said of a source that has no settings, with its path in quotes.
pub open spec fn missing_text(quoted: Seq<char>) -> Seq<char> {
    "Source config directory not found: "@ + quoted
}

/// What is said of a source that has no settings, with its path in quotes.
pub fn source_missing_text(quoted: &str) -> (r: String)
    ensures
        r@ == "Source config directory not found: "@ + quoted@,
{
    let mut r: String = "Source config directory not found: ".to_string();
    r.append(quoted);
    r
}

impl CopyErrorView {
    /// What is said of the error, given the path of the source in quotes.
    pub open spec fn text(self, quoted: Seq<char>) -> Seq<char> {
        match self {
            CopyErrorView::SourceMissing(_) => missing_text(quoted),
            CopyErrorView::Failed(reason) => reason,
        }
    }
}

impl CopyError {
    /// What is said of the error, given the path of the source in quotes.
    pub fn text(&self, quoted: &str) -> (r: String)
        ensures
            r@ == self@.text(quoted@),
    {
        match self {
            CopyError::SourceMissing(_) => source_missing_text(quoted),
            CopyError::Failed(reason) => reason.clone(),
        }
    }
}

/// How far a copy has come.
#[derive(Debug)]
pub enum CopyStage {
    CheckSource,
    CheckTarget,
    MakeTarget,
    OpenSource,
    NextEntry,
    CopyFile(String),
    Done,
    Broken(CopyError),
}

/// What a stage says.
pub enum StageView {
    CheckSource,
    CheckTarget,
    MakeTarget,
    OpenSource,
    NextEntry,
    CopyFile(Seq<char>),
    Done,
    Broken(CopyErrorView),
}

impl View for CopyStage {
    type V = StageView;

    open spec fn view(&self) -> StageView {
        match self {
            CopyStage::CheckSource => StageView::CheckSource,
            CopyStage::CheckTarget => StageView::CheckTarget,
            CopyStage::MakeTarget => StageView::MakeTarget,
            CopyStage::OpenSource => StageView::OpenSource,
            CopyStage::NextEntry => StageView::NextEntry,
            CopyStage::CopyFile(name) => StageView::CopyFile(name@),
            CopyStage::Done => StageView::Done,
            CopyStage::Broken(e) => StageView::Broken(e@),
        }
    }
}

/// A copy under way, from one directory to another.
#[derive(Debug)]
pub struct CopyJob {
    pub source: FsPath,
    pub target: FsPath,
    pub stage: CopyStage,
}

/// What a copy under way says.
#[verifier::ext_equal]
pub struct JobView {
    pub source: PathView,
    pub target: PathView,
    pub stage: StageView,
}

impl View for CopyJob {
    type V = JobView;

    open spec fn view(&self) -> JobView {
        JobView { source: self.source@, target: self.target@, stage: self.stage@ }
    }
}

impl DeepView for CopyJob {
    type V = JobView;

    open spec fn deep_view(&self) -> JobView {
        self@
    }
}

/// An action that a copy asks for.
#[derive(Debug)]
pub enum CopyAction {
    /// Find out whether the path exists.
    Exists(FsPath),
    /// Make the directory, with those above it.
    MakeDir(FsPath),
    /// Begin to list the directory.
    OpenDir(FsPath),
    /// Go on to the next entry of the listing.
    NextEntry,
    /// Copy the first file over the second.
    CopyFile(FsPath, FsPath),
}

/// What an action says.
pub enum ActionView {
    Exists(PathView),
    MakeDir(PathView),
    OpenDir(PathView),
    NextEntry,
    CopyFile(PathView, PathView),
}

impl View for CopyAction {
    type V = ActionView;

    open spec fn view(&self) -> ActionView {
        match self {
            CopyAction::Exists(p) => ActionView::Exists(p@),
            CopyAction::MakeDir(p) => ActionView::MakeDir(p@),
            CopyAction::OpenDir(p) => ActionView::OpenDir(p@),
            CopyAction::NextEntry => ActionView::NextEntry,
            CopyAction::CopyFile(from, to) => ActionView::CopyFile(from@, to@),
        }
    }
}

impl DeepView for CopyAction {
    type V = ActionView;

    open spec fn deep_view(&self) -> ActionView {
        self@
    }
}

/// The reply to an action.
#[derive(Debug)]
pub enum CopyReply {
    /// Whether the path exists.
    Exists(bool),
    /// The action was carried out.
    Done,
    /// The action failed, for the given reason.
    Failed(String),
    /// The entry's name, and whether it is a file.
    Entry(String, bool),
    /// The listing has no further entry.
    End,
}

/// What a reply says.
pub enum ReplyView {
    Exists(bool),
    Done,
    Failed(Seq<char>),
    Entry(Seq<char>, bool),
    End,
}

impl View for CopyReply {
    type V = ReplyView;

    open spec fn view(&self) -> ReplyView {
        match self {
            CopyReply::Exists(b) => ReplyView::Exists(*b),
            CopyReply::Done => ReplyView::Done,
            CopyReply::Failed(e) => ReplyView::Failed(e@),
            CopyReply::Entry(name, is_file) => ReplyView::Entry(name@, *is_file),
            CopyReply::End => ReplyView::End,
        }
    }
}

/// The directory of an account's settings.
pub open spec fn settings_dir(base: PathView, id: Seq<char>) -> PathView {
    base.join(id).below("570/remote/cfg"@)
}

/// The directory of an account's settings, below the user data.
pub fn settings_directory(base: &FsPath, id: &str) -> (r: FsPath)
    requires
        base@.joinable(id@),
    ensures
        r@ == settings_dir(base@, id@),
{
    base.join(id).below("570/remote/cfg")
}

impl JobView {
    /// The copy at another stage.
    pub open spec fn at(self, stage: StageView) -> JobView {
        JobView { source: self.source, target: self.target, stage }
    }

    /// The action that the copy asks for; none at its end.
    pub open spec fn action(self) -> Option<ActionView> {
        match self.stage {
            StageView::CheckSource => Some(ActionView::Exists(self.source)),
            StageView::CheckTarget => Some(ActionView::Exists(self.target)),
            StageView::MakeTarget => Some(ActionView::MakeDir(self.target)),
            StageView::OpenSource => Some(ActionView::OpenDir(self.source)),
            StageView::NextEntry => Some(ActionView::NextEntry),
            StageView::CopyFile(name) => Some(
                ActionView::CopyFile(self.source.below(name), self.target.below(name)),
            ),
            StageView::Done => None,
            StageView::Broken(_) => None,
        }
    }

    /// Whether the reply is of a kind that the action can have.
    pub open spec fn takes(self, reply: ReplyView) -> bool {
        match self.stage {
            StageView::CheckSource => reply is Exists,
            StageView::CheckTarget => reply is Exists,
            StageView::NextEntry => reply is Entry || reply is End || reply is Failed,
            StageView::Done => false,
            StageView::Broken(_) => false,
            _ => reply is Done || reply is Failed,
        }
    }

    /// The copy after the reply. A failed action ends it, as does a source
    /// that does not exist; a target that does not exist is made; of the
    /// entries of the source the files are copied and the rest is passed over.
    pub open spec fn after(self, reply: ReplyView) -> JobView {
        match (self.stage, reply) {
            (_, ReplyView::Failed(e)) => self.at(StageView::Broken(CopyErrorView::Failed(e))),
            (StageView::CheckSource, ReplyView::Exists(true)) => self.at(StageView::CheckTarget),
            (StageView::CheckSource, ReplyView::Exists(false)) => self.at(
                StageView::Broken(CopyErrorView::SourceMissing(self.source)),
            ),
            (StageView::CheckTarget, ReplyView::Exists(true)) => self.at(StageView::OpenSource),
            (StageView::CheckTarget, ReplyView::Exists(false)) => self.at(StageView::MakeTarget),
            (StageView::MakeTarget, ReplyView::Done) => self.at(StageView::OpenSource),
            (StageView::OpenSource, ReplyView::Done) => self.at(StageView::NextEntry),
            (StageView::NextEntry, ReplyView::Entry(name, true)) => self.at(
                StageView::CopyFile(name),
            ),
            (StageView::NextEntry, ReplyView::Entry(_, false)) => self,
            (StageView::NextEntry, ReplyView::End) => self.at(StageView::Done),
            (StageView::CopyFile(_), ReplyView::Done) => self.at(StageView::NextEntry),
            _ => self,
        }
    }
}

/// A copy at its beginning.
pub open spec fn copy_start(base: PathView, source_id: Seq<char>, target_id: Seq<char>) -> JobView {
    JobView {
        source: settings_dir(base, source_id),
        target: settings_dir(base, target_id),
        stage: StageView::CheckSource,
    }
}

/// Begins to copy the settings of one account to another.
pub fn copy_dota_config(base: &FsPath, source_id: &str, target_id: &str) -> (r: CopyJob)
    requires
        base@.joinable(source_id@),
        base@.joinable(target_id@),
    ensures
        r@ == copy_start(base@, source_id@, target_id@),
{
    CopyJob {
        source: settings_directory(base, source_id),
        target: settings_directory(base, target_id),
        stage: CopyStage::CheckSource,
    }
}

impl CopyJob {
    /// The action that the copy asks for; none at its end.
    pub fn action(&self) -> (r: Option<CopyAction>)
        ensures
            r.deep_view() == self@.action(),
    {
        match &self.stage {
            CopyStage::CheckSource => Some(CopyAction::Exists(self.source.copy())),
            CopyStage::CheckTarget => Some(CopyAction::Exists(self.target.copy())),
            CopyStage::MakeTarget => Some(CopyAction::MakeDir(self.target.copy())),
            CopyStage::OpenSource => Some(CopyAction::OpenDir(self.source.copy())),
            CopyStage::NextEntry => Some(CopyAction::NextEntry),
            CopyStage::CopyFile(name) => Some(
                CopyAction::CopyFile(
                    self.source.below(name.as_str()),
                    self.target.below(name.as_str()),
                ),
            ),
            CopyStage::Done => None,
            CopyStage::Broken(_) => None,
        }
    }

    /// Takes the reply to the action.
    pub fn reply(&mut self, reply: CopyReply)
        requires
            old(self)@.takes(reply@),
        ensures
            final(self)@ == old(self)@.after(reply@),
    {
        let next: CopyStage = match reply {
            CopyReply::Failed(e) => CopyStage::Broken(CopyError::Failed(e)),
            CopyReply::Exists(true) => match &self.stage {
                CopyStage::CheckSource => CopyStage::CheckTarget,
                _ => CopyStage::OpenSource,
            },
            CopyReply::Exists(false) => match &self.stage {
                CopyStage::CheckSource => CopyStage::Broken(
                    CopyError::SourceMissing(self.source.copy()),
                ),
                _ => CopyStage::MakeTarget,
            },
            CopyReply::Done => match &self.stage {
                CopyStage::MakeTarget => CopyStage::OpenSource,
                _ => CopyStage::NextEntry,
            },
            CopyReply::Entry(name, true) => CopyStage::CopyFile(name),
            CopyReply::Entry(_, false) => CopyStage::NextEntry,
            CopyReply::End => CopyStage::Done,
        };
        self.stage = next;
    }

    /// How the copy ended; nothing as long as it is under way.
    pub fn outcome(self) -> (r: Option<Result<(), CopyError>>)
        ensures
            match self@.stage {
                StageView::Done => r == Some(Ok::<(), CopyError>(())),
                StageView::Broken(e) => r is Some && r->0 is Err && r->0->Err_0@ == e,
                _ => r is None,
            },
    {
        match self.stage {
            CopyStage::Done => Some(Ok(())),
            CopyStage::Broken(e) => Some(Err(e)),
            _ => None,
        }
    }
}

/// A copy has ended exactly when it is done or has failed.
pub proof fn copy_ends_done_or_broken(job: JobView)
    ensures
        job.action() is None <==> job.stage is Done || job.stage is Broken,
{
}

/// A source that does not exist is refused before anything is written.
pub proof fn missing_source_is_refused(
    base: PathView,
    source_id: Seq<char>,
    target_id: Seq<char>,
)
    ensures
        ({
            let start = copy_start(base, source_id, target_id);
            let end = start.after(ReplyView::Exists(false));
            &&& start.action() == Some(ActionView::Exists(settings_dir(base, source_id)))
            &&& end.action() is None
            &&& end.stage == StageView::Broken(
                CopyErrorView::SourceMissing(settings_dir(base, source_id)),
            )
        }),
{
}

/// An action that fails ends the copy at once, for the reason that it failed.
pub proof fn failure_ends_the_copy(job: JobView, reason: Seq<char>)
    requires
        job.takes(ReplyView::Failed(reason)),
    ensures
        job.after(ReplyView::Failed(reason)).action() is None,
        job.after(ReplyView::Failed(reason)).stage == StageView::Broken(
            CopyErrorView::Failed(reason),
        ),
{
}

/// Accounts with different numbers, each one name, keep their settings apart:
/// neither directory lies in the other.
pub proof fn settings_lie_apart(base: PathView, a: Seq<char>, b: Seq<char>)
    requires
        a != b,
        is_name(base.platform, a),
        is_name(base.platform, b),
    ensures
        !settings_dir(base, a).same(settings_dir(base, b)),
        forall|p: PathView|
            #[trigger] p.within(settings_dir(base, a)) ==> !p.within(settings_dir(base, b)),
{
    names_lead_down(base, a);
    names_lead_down(base, b);
    texts_lead_on(base.join(a), "570/remote/cfg"@);
    texts_lead_on(base.join(b), "570/remote/cfg"@);
    let n = base.names().len() as int;
    let x = settings_dir(base, a);
    let y = settings_dir(base, b);
    assert(x.names()[n] == a);
    assert(y.names()[n] == b);
    if x.same(y) {
        assert(x.meaning().names == y.meaning().names);
    }
    assert forall|p: PathView| #[trigger] p.within(x) implies !p.within(y) by {
        assert(p.names().take(x.names().len() as int)[n] == p.names()[n]);
        if p.within(y) {
            assert(p.names().take(y.names().len() as int)[n] == p.names()[n]);
        }
    }
}

/// What an action writes to, if it writes.
pub open spec fn written_by(action: ActionView) -> Option<PathView> {
    match action {
        ActionView::MakeDir(p) => Some(p),
        ActionView::CopyFile(_, to) => Some(to),
        _ => None,
    }
}

/// A reply changes neither the source nor the target of a copy.
pub proof fn copy_keeps_its_directories(job: JobView, reply: ReplyView)
    ensures
        job.after(reply).source == job.source,
        job.after(reply).target == job.target,
{
}

/// Whether what is to be copied next is called by one name, as every entry of a
/// directory is.
pub open spec fn names_an_entry(job: JobView) -> bool {
    job.stage matches StageView::CopyFile(name) ==> is_name(job.target.platform, name)
}

/// A copy asks for the entries that it is told of, and for no others: where each
/// of them is called by one name, so is what is to be copied next.
pub proof fn entries_keep_their_names(job: JobView, reply: ReplyView)
    requires
        names_an_entry(job),
        reply matches ReplyView::Entry(name, _) ==> is_name(job.target.platform, name),
    ensures
        names_an_entry(job.after(reply)),
{
}

/// At every stage a copy writes to nothing outside its target.
pub proof fn copy_writes_to_the_target(job: JobView)
    requires
        names_an_entry(job),
    ensures
        job.action() is Some && written_by(job.action()->0) is Some ==> written_by(
            job.action()->0,
        )->0.within(job.target),
{
    let t = job.target;
    let n = t.names().len() as int;
    assert(t.names().take(n) == t.names());
    if let StageView::CopyFile(name) = job.stage {
        names_lead_down(t, name);
        assert(t.names().push(name).take(n) == t.names());
        assert(t.below(name).meaning().root == t.meaning().root);
    }
}

/// Copying between accounts with different numbers, each one name, writes to
/// nothing in the settings of the source.
pub proof fn copy_leaves_the_source(
    base: PathView,
    source_id: Seq<char>,
    target_id: Seq<char>,
    stage: StageView,
)
    requires
        source_id != target_id,
        is_name(base.platform, source_id),
        is_name(base.platform, target_id),
        names_an_entry(copy_start(base, source_id, target_id).at(stage)),
    ensures
        ({
            let action = copy_start(base, source_id, target_id).at(stage).action();
            action is Some && written_by(action->0) is Some ==> !written_by(action->0)->0.within(
                settings_dir(base, source_id),
            )
        }),
{
    copy_writes_to_the_target(copy_start(base, source_id, target_id).at(stage));
    settings_lie_apart(base, target_id, source_id);
}

/// An entry of a listing: its name, and whether it is a file.
pub struct ListedEntry {
    pub name: Seq<char>,
    pub is_file: bool,
}

/// The replies of a listing all of whose files can be copied.
pub open spec fn listing(entries: Seq<ListedEntry>) -> Seq<ReplyView>
    decreases entries.len(),
{
    if entries.len() == 0 {
        seq![ReplyView::End]
    } else {
        let e = entries.first();
        let first = ReplyView::Entry(e.name, e.is_file);
        if e.is_file {
            seq![first, ReplyView::Done] + listing(entries.drop_first())
        } else {
            seq![first] + listing(entries.drop_first())
        }
    }
}

/// The copy after several replies.
pub open spec fn after_all(job: JobView, replies: Seq<ReplyView>) -> JobView
    decreases replies.len(),
{
    if replies.len() == 0 {
        job
    } else {
        after_all(job.after(replies.first()), replies.drop_first())
    }
}

/// The file copies that a copy asks for while it takes the replies.
pub open spec fn copied(job: JobView, replies: Seq<ReplyView>) -> Seq<(PathView, PathView)>
    decreases replies.len(),
{
    if replies.len() == 0 {
        Seq::empty()
    } else {
        let rest = copied(job.after(replies.first()), replies.drop_first());
        match job.action() {
            Some(ActionView::CopyFile(from, to)) => seq![(from, to)] + rest,
            _ => rest,
        }
    }
}

/// The file copies that carry every file among the entries over under its own
/// name, in their order.
pub open spec fn wanted_copies(
    source: PathView,
    target: PathView,
    entries: Seq<ListedEntry>,
) -> Seq<(PathView, PathView)>
    decreases entries.len(),
{
    if entries.len() == 0 {
        Seq::empty()
    } else {
        let rest = wanted_copies(source, target, entries.drop_first());
        let e = entries.first();
        if e.is_file {
            seq![(source.below(e.name), target.below(e.name))] + rest
        } else {
            rest
        }
    }
}

proof fn lemma_listing(job: JobView, entries: Seq<ListedEntry>)
    requires
        job.stage == StageView::NextEntry,
    ensures
        after_all(job, listing(entries)) == job.at(StageView::Done),
        copied(job, listing(entries)) == wanted_copies(job.source, job.target, entries),
    decreases entries.len(),
{
    reveal_with_fuel(after_all, 3);
    reveal_with_fuel(copied, 3);
    let all = listing(entries);
    if entries.len() == 0 {
        assert(all.drop_first() == Seq::<ReplyView>::empty());
    } else {
        let e = entries.first();
        let rest = listing(entries.drop_first());
        lemma_listing(job, entries.drop_first());
        if e.is_file {
            assert(all.drop_first().drop_first() == rest);
            assert(all.drop_first().first() == ReplyView::Done);
            assert(job.at(StageView::CopyFile(e.name)).after(ReplyView::Done) == job);
        } else {
            assert(all.drop_first() == rest);
        }
    }
}

/// A copy to which nothing fails is done at the end of the listing, and has
/// then copied exactly the files of the source, each to its own name in the
/// target, whether or not the target existed before.
pub proof fn copy_carries_every_file(
    base: PathView,
    source_id: Seq<char>,
    target_id: Seq<char>,
    target_exists: bool,
    entries: Seq<ListedEntry>,
)
    ensures
        ({
            let start = copy_start(base, source_id, target_id);
            let opening = if target_exists {
                seq![ReplyView::Exists(true), ReplyView::Exists(true), ReplyView::Done]
            } else {
                seq![
                    ReplyView::Exists(true),
                    ReplyView::Exists(false),
                    ReplyView::Done,
                    ReplyView::Done,
                ]
            };
            let replies = opening + listing(entries);
            &&& after_all(start, replies) == start.at(StageView::Done)
            &&& copied(start, replies) == wanted_copies(
                settings_dir(base, source_id),
                settings_dir(base, target_id),
                entries,
            )
        }),
{
    reveal_with_fuel(after_all, 5);
    reveal_with_fuel(copied, 5);
    let start = copy_start(base, source_id, target_id);
    let rest = listing(entries);
    lemma_listing(start.at(StageView::NextEntry), entries);
    if target_exists {
        let opening = seq![ReplyView::Exists(true), ReplyView::Exists(true), ReplyView::Done];
        let replies = opening + rest;
        assert(replies.first() == ReplyView::Exists(true));
        assert(replies.drop_first().first() == ReplyView::Exists(true));
        assert(replies.drop_first().drop_first().first() == ReplyView::Done);
        assert(replies.drop_first().drop_first().drop_first() == rest);
    } else {
        let opening = seq![
            ReplyView::Exists(true),
            ReplyView::Exists(false),
            ReplyView::Done,
            ReplyView::Done,
        ];
        let replies = opening + rest;
        assert(replies.first() == ReplyView::Exists(true));
        assert(replies.drop_first().first() == ReplyView::Exists(false));
        assert(replies.drop_first().drop_first().first() == ReplyView::Done);
        assert(replies.drop_first().drop_first().drop_first().first() == ReplyView::Done);
        assert(replies.drop_first().drop_first().drop_first().drop_first() == rest);
    }
}

} // verus!
