//! What holds of all copies: what is asked for after which replies, and how a
//! copy ends.

use vstd::prelude::*;

use crate::copy::{after_all, copy_start, settings_dir, ActionView, CopyAction, CopyError, CopyErrorView, CopyJob, CopyReply, JobView, ReplyView, StageView};
use crate::path::{is_name, names_lead_down, texts_lead_on, FsPath, PathView};
use crate::path_laws::{plain_texts_are_names, separators_part_names};

verus! {

/// Actions and replies say what they are.
pub proof fn copy_words_say_what_they_are(p: FsPath, q: FsPath, text: String, b: bool)
    ensures
        CopyAction::Exists(p)@ == ActionView::Exists(p@),
        CopyAction::MakeDir(p)@ == ActionView::MakeDir(p@),
        CopyAction::OpenDir(p)@ == ActionView::OpenDir(p@),
        CopyAction::NextEntry@ == ActionView::NextEntry,
        CopyAction::CopyFile(p, q)@ == ActionView::CopyFile(p@, q@),
        CopyReply::Exists(b)@ == ReplyView::Exists(b),
        CopyReply::Done@ == ReplyView::Done,
        CopyReply::Failed(text)@ == ReplyView::Failed(text@),
        CopyReply::Entry(text, b)@ == ReplyView::Entry(text@, b),
        CopyReply::End@ == ReplyView::End,
        CopyError::SourceMissing(p)@ == CopyErrorView::SourceMissing(p@),
        CopyError::Failed(text)@ == CopyErrorView::Failed(text@),
{
}

/// A copy under way says what its fields hold.
pub proof fn copies_say_their_fields(job: CopyJob, action: CopyAction, error: CopyError)
    ensures
        job.deep_view() == job@,
        action.deep_view() == action@,
        error.deep_view() == error@,
        job@.source == job.source@,
        job@.target == job.target@,
        job@.stage is Done <==> job.stage is Done,
        job@.stage is Broken <==> job.stage is Broken,
{
}

/// The settings of an account lie in a directory called after its number, below
/// the user data.
pub proof fn settings_lie_below_the_number(base: PathView, id: Seq<char>)
    ensures
        settings_dir(base, id) == base.join(id).below("570/remote/cfg"@),
{
}

/// The directory of the settings of an account whose number is one name lies
/// four names below the user data, on every platform: the first is the number.
pub proof fn settings_lie_four_names_below(base: PathView, id: Seq<char>)
    requires
        is_name(base.platform, id),
    ensures
        settings_dir(base, id).platform == base.platform,
        settings_dir(base, id).root == base.root,
        settings_dir(base, id).names() == base.names() + seq![id, "570"@, "remote"@, "cfg"@],
{
    reveal_strlit("570/remote/cfg");
    reveal_strlit("570");
    reveal_strlit("remote");
    reveal_strlit("cfg");
    let p = base.platform;
    let text = "570/remote/cfg"@;
    let a = "570"@;
    let b = "remote"@;
    let c = "cfg"@;
    let root = seq!['/'];
    assert(a =~= seq!['5', '7', '0']);
    assert(b =~= seq!['r', 'e', 'm', 'o', 't', 'e']);
    assert(c =~= seq!['c', 'f', 'g']);
    assert(text =~= a.push('/') + (b.push('/') + c));
    separators_part_names(p, root, a, '/', b.push('/') + c);
    separators_part_names(p, root, b, '/', c);
    plain_texts_are_names(p, root, a);
    plain_texts_are_names(p, root, b);
    plain_texts_are_names(p, root, c);
    names_lead_down(base, id);
    texts_lead_on(base.join(id), text);
    assert(settings_dir(base, id).names() =~= base.names() + seq![id, a, b, c]);
}

/// Whether every reply is of a kind that the action before it can have.
pub open spec fn all_taken(job: JobView, replies: Seq<ReplyView>) -> bool
    decreases replies.len(),
{
    replies.len() == 0 || (job.takes(replies.first()) && all_taken(
        job.after(replies.first()),
        replies.drop_first(),
    ))
}

proof fn lemma_one_more(job: JobView, replies: Seq<ReplyView>)
    requires
        replies.len() > 0,
        all_taken(job, replies),
    ensures
        ({
            let before = after_all(job, replies.drop_last());
            &&& all_taken(job, replies.drop_last())
            &&& before.takes(replies.last())
            &&& after_all(job, replies) == before.after(replies.last())
        }),
    decreases replies.len(),
{
    let next = job.after(replies.first());
    let rest = replies.drop_first();
    if rest.len() == 0 {
        assert(replies.drop_last() == Seq::<ReplyView>::empty());
        assert(replies.last() == replies.first());
        assert(after_all(next, rest) == next);
    } else {
        lemma_one_more(next, rest);
        assert(replies.drop_last().drop_first() == rest.drop_last());
        assert(replies.drop_last().first() == replies.first());
        assert(rest.last() == replies.last());
    }
}

proof fn lemma_stage(base: PathView, source_id: Seq<char>, target_id: Seq<char>, r: Seq<ReplyView>)
    requires
        all_taken(copy_start(base, source_id, target_id), r),
    ensures
        ({
            let job = after_all(copy_start(base, source_id, target_id), r);
            let n = r.len();
            &&& job.source == base.join(source_id).below("570/remote/cfg"@)
            &&& job.target == base.join(target_id).below("570/remote/cfg"@)
            &&& job.stage is CheckSource <==> n == 0
            &&& job.stage is CheckTarget <==> n == 1 && r[0] == ReplyView::Exists(true)
            &&& job.stage is MakeTarget <==> n == 2 && r[1] == ReplyView::Exists(false)
            &&& job.stage is OpenSource <==> (n == 2 && r[1] == ReplyView::Exists(true)) || (n == 3
                && r[1] == ReplyView::Exists(false) && r[2] is Done)
            &&& n >= 2 ==> r[0] == ReplyView::Exists(true) && r[1] is Exists
            &&& n >= 3 && r[1] == ReplyView::Exists(false) ==> r[2] is Done || r[2] is Failed
            &&& n == 1 ==> r[0] is Exists
            &&& n == 1 && r[0] == ReplyView::Exists(false) ==> job.stage == StageView::Broken(
                CopyErrorView::SourceMissing(job.source),
            )
            &&& n > 2 ==> !(r.last() is Exists)
            &&& n > 0 ==> match r.last() {
                ReplyView::Entry(name, true) => job.stage == StageView::CopyFile(name),
                ReplyView::Entry(_, false) => job.stage is NextEntry,
                ReplyView::End => job.stage is Done,
                ReplyView::Failed(e) => job.stage == StageView::Broken(CopyErrorView::Failed(e)),
                ReplyView::Done => job.stage is OpenSource || job.stage is NextEntry,
                ReplyView::Exists(_) => n <= 2,
            }
            &&& job.stage is NextEntry || job.stage is CopyFile || job.stage is Done ==> n > 2
        }),
    decreases r.len(),
{
    if r.len() > 0 {
        lemma_one_more(copy_start(base, source_id, target_id), r);
        lemma_stage(base, source_id, target_id, r.drop_last());
    }
}

/// A copy first asks whether the settings of the source exist, and ends where
/// they do not. Then it asks whether those of the target do, and has the
/// directory made where they do not. Then it opens the directory of the source,
/// and no other. Each entry that is a file is copied from the source to its own
/// name in the target before the next entry is asked for; any other entry is
/// passed over. The end of the entries, and any failure, end the copy.
pub proof fn copies_ask_in_turn(
    base: PathView,
    source_id: Seq<char>,
    target_id: Seq<char>,
    replies: Seq<ReplyView>,
)
    requires
        all_taken(copy_start(base, source_id, target_id), replies),
    ensures
        ({
            let source = base.join(source_id).below("570/remote/cfg"@);
            let target = base.join(target_id).below("570/remote/cfg"@);
            let action = after_all(copy_start(base, source_id, target_id), replies).action();
            let n = replies.len();
            if n == 0 {
                action == Some(ActionView::Exists(source))
            } else {
                match replies.last() {
                    ReplyView::Exists(yes) => if n == 1 {
                        action == if yes { Some(ActionView::Exists(target)) } else { None }
                    } else {
                        n == 2 && action == Some(
                            if yes {
                                ActionView::OpenDir(source)
                            } else {
                                ActionView::MakeDir(target)
                            },
                        )
                    },
                    ReplyView::Entry(name, is_file) => action == Some(
                        if is_file {
                            ActionView::CopyFile(source.below(name), target.below(name))
                        } else {
                            ActionView::NextEntry
                        },
                    ),
                    ReplyView::Done => action == Some(
                        if n == 3 && replies[1] == ReplyView::Exists(false) {
                            ActionView::OpenDir(source)
                        } else {
                            ActionView::NextEntry
                        },
                    ),
                    ReplyView::End => action is None,
                    ReplyView::Failed(_) => action is None,
                }
            }
        }),
{
    lemma_stage(base, source_id, target_id, replies);
}

/// In every run of a copy, on every platform, the only directory that is opened
/// is that of the source's settings, the only one that is made is that of the
/// target's, and files go from the one to the other under their own names.
pub proof fn copies_go_from_source_to_target(
    base: PathView,
    source_id: Seq<char>,
    target_id: Seq<char>,
    replies: Seq<ReplyView>,
)
    requires
        all_taken(copy_start(base, source_id, target_id), replies),
    ensures
        match after_all(copy_start(base, source_id, target_id), replies).action() {
            Some(ActionView::OpenDir(p)) => p == base.join(source_id).below("570/remote/cfg"@),
            Some(ActionView::MakeDir(p)) => p == base.join(target_id).below("570/remote/cfg"@),
            Some(ActionView::CopyFile(from, to)) => replies.len() > 0 && (replies.last() matches
                ReplyView::Entry(name, true) && from == base.join(source_id).below(
                "570/remote/cfg"@,
            ).below(name) && to == base.join(target_id).below("570/remote/cfg"@).below(name)),
            _ => true,
        },
{
    lemma_stage(base, source_id, target_id, replies);
}

/// A copy is done exactly when the entries have come to their end. It fails
/// where the settings of the source do not exist, or for the reason that an
/// action failed for, and in no other case.
pub proof fn copies_end_as_they_are_told(
    base: PathView,
    source_id: Seq<char>,
    target_id: Seq<char>,
    replies: Seq<ReplyView>,
)
    requires
        all_taken(copy_start(base, source_id, target_id), replies),
    ensures
        ({
            let stage = after_all(copy_start(base, source_id, target_id), replies).stage;
            let n = replies.len();
            &&& stage is Done <==> n > 0 && replies.last() is End
            &&& n > 0 ==> (replies.last() matches ReplyView::Failed(e) ==> stage
                == StageView::Broken(CopyErrorView::Failed(e)))
            &&& n == 1 && replies[0] == ReplyView::Exists(false) ==> stage == StageView::Broken(
                CopyErrorView::SourceMissing(base.join(source_id).below("570/remote/cfg"@)),
            )
            &&& stage is Broken ==> n > 0 && (replies.last() is Failed || (n == 1 && replies[0]
                == ReplyView::Exists(false)))
        }),
{
    lemma_stage(base, source_id, target_id, replies);
}

/// A missing source is told of with its path, and a failed action by its reason.
pub proof fn errors_are_put_in_words(path: PathView, reason: Seq<char>, quoted: Seq<char>)
    ensures
        CopyErrorView::SourceMissing(path).text(quoted) == "Source config directory not found: "@
            + quoted,
        CopyErrorView::Failed(reason).text(quoted) == reason,
{
}

/// Every action can be answered: whether a path exists or not, whether what was
/// asked for was done or failed, and whatever a listing holds.
pub proof fn copies_take_every_answer(
    job: JobView,
    yes: bool,
    reason: Seq<char>,
    name: Seq<char>,
)
    ensures
        match job.action() {
            Some(ActionView::Exists(_)) => job.takes(ReplyView::Exists(yes)),
            Some(ActionView::NextEntry) => job.takes(ReplyView::Entry(name, yes)) && job.takes(
                ReplyView::End,
            ) && job.takes(ReplyView::Failed(reason)),
            Some(_) => job.takes(ReplyView::Done) && job.takes(ReplyView::Failed(reason)),
            None => true,
        },
{
}

} // verus!
