//! The dispatch policy: what to do with a batch of inputs, given the
//! verdict on each.

use vstd::prelude::*;
use crate::classifier::ClipboardStrategy;
use crate::paths::{path_views, InputPath, PathView};
use crate::strings::{decimal, decimal_digits};

verus! {

/// How many inputs of a batch got each verdict.
#[derive(Debug, Clone, Copy, PartialEq, Eq, Structural)]
pub struct BatchTally {
    pub image_count: usize,
    pub file_count: usize,
    pub text_count: usize,
}

/// What to do with a batch.
#[derive(Debug, Clone, PartialEq, Eq)]
pub enum DispatchOutcome {
    /// Copy the one image as a bitmap.
    SingleImage(InputPath),
    /// Copy all the inputs as file objects.
    MultiAsFileObjects(Vec<InputPath>),
    /// Do nothing: the batch mixes kinds.
    RejectedMixed { image_count: usize, file_count: usize, text_count: usize },
    /// Stream the inputs as text.
    FallThroughText,
}

/// What a `DispatchOutcome` stands for in contracts.
pub enum OutcomeView {
    SingleImage(PathView),
    MultiAsFileObjects(Seq<PathView>),
    RejectedMixed { image_count: int, file_count: int, text_count: int },
    FallThroughText,
}

impl View for DispatchOutcome {
    type V = OutcomeView;

    open spec fn view(&self) -> OutcomeView {
        match self {
            DispatchOutcome::SingleImage(p) => OutcomeView::SingleImage(p@),
            DispatchOutcome::MultiAsFileObjects(ps) => OutcomeView::MultiAsFileObjects(
                path_views(ps@),
            ),
            DispatchOutcome::RejectedMixed { image_count, file_count, text_count } => {
                OutcomeView::RejectedMixed {
                    image_count: *image_count as int,
                    file_count: *file_count as int,
                    text_count: *text_count as int,
                }
            },
            DispatchOutcome::FallThroughText => OutcomeView::FallThroughText,
        }
    }
}

/// How many of `verdicts` are `kind`.
pub open spec fn count_of(verdicts: Seq<ClipboardStrategy>, kind: ClipboardStrategy) -> int {
    verdicts.to_multiset().count(kind) as int
}

/// How many of the three kinds a batch holds.
pub open spec fn kinds_present(images: int, files: int, texts: int) -> int {
    (if images > 0 {
        1int
    } else {
        0int
    }) + (if files > 0 {
        1int
    } else {
        0int
    }) + (if texts > 0 {
        1int
    } else {
        0int
    })
}

/// The policy, in the order of its rules: a batch of more than one kind is
/// rejected; images make a single image where the batch has exactly one
/// path, else file objects; file objects stay file objects; all else,
/// the empty batch too, is text.
pub open spec fn decision(paths: Seq<PathView>, images: int, files: int, texts: int) -> OutcomeView {
    if kinds_present(images, files, texts) > 1 {
        OutcomeView::RejectedMixed { image_count: images, file_count: files, text_count: texts }
    } else if images > 0 {
        if paths.len() == 1 {
            OutcomeView::SingleImage(paths[0])
        } else {
            OutcomeView::MultiAsFileObjects(paths)
        }
    } else if files > 0 {
        OutcomeView::MultiAsFileObjects(paths)
    } else {
        OutcomeView::FallThroughText
    }
}

/// The policy on a batch given by the verdict on each input.
pub open spec fn batch_decision(
    paths: Seq<PathView>,
    verdicts: Seq<ClipboardStrategy>,
) -> OutcomeView {
    decision(
        paths,
        count_of(verdicts, ClipboardStrategy::Image),
        count_of(verdicts, ClipboardStrategy::File),
        count_of(verdicts, ClipboardStrategy::Text),
    )
}

/// The three counts add up to the number of verdicts.
pub proof fn lemma_counts_add_up(verdicts: Seq<ClipboardStrategy>)
    ensures
        count_of(verdicts, ClipboardStrategy::Image) + count_of(verdicts, ClipboardStrategy::File)
            + count_of(verdicts, ClipboardStrategy::Text) == verdicts.len(),
    decreases verdicts.len(),
{
    broadcast use vstd::seq_lib::group_to_multiset_ensures;

    if verdicts.len() > 0 {
        let rest = verdicts.drop_last();
        lemma_counts_add_up(rest);
        assert(verdicts == rest.push(verdicts.last()));
    }
}

/// The order of the inputs decides nothing but the order in which an
/// outcome lists them: two batches with the same paths and the same
/// verdicts, each as often, get the same kind of outcome, with the same
/// counts, the same single image, the same paths.
pub proof fn lemma_decision_ignores_order(
    paths_a: Seq<PathView>,
    verdicts_a: Seq<ClipboardStrategy>,
    paths_b: Seq<PathView>,
    verdicts_b: Seq<ClipboardStrategy>,
)
    requires
        paths_a.to_multiset() == paths_b.to_multiset(),
        verdicts_a.to_multiset() == verdicts_b.to_multiset(),
    ensures
        match batch_decision(paths_a, verdicts_a) {
            OutcomeView::MultiAsFileObjects(listed) => batch_decision(paths_b, verdicts_b)
                matches OutcomeView::MultiAsFileObjects(other) && other.to_multiset()
                == listed.to_multiset(),
            same => batch_decision(paths_b, verdicts_b) == same,
        },
{
    broadcast use vstd::seq_lib::group_to_multiset_ensures;

    vstd::seq_lib::to_multiset_len(paths_a);
    vstd::seq_lib::to_multiset_len(paths_b);
    assert(paths_a.len() == paths_b.len());
    if paths_a.len() == 1 {
        assert(paths_a.to_multiset().count(paths_a[0]) > 0);
        assert(paths_b.contains(paths_a[0]));
    }
}

/// Counts the verdicts of a batch.
pub fn tally(verdicts: &Vec<ClipboardStrategy>) -> (t: BatchTally)
    ensures
        t.image_count == count_of(verdicts@, ClipboardStrategy::Image),
        t.file_count == count_of(verdicts@, ClipboardStrategy::File),
        t.text_count == count_of(verdicts@, ClipboardStrategy::Text),
{
    broadcast use vstd::seq_lib::group_to_multiset_ensures;

    let mut t = BatchTally { image_count: 0, file_count: 0, text_count: 0 };
    let mut i: usize = 0;
    assert(verdicts@.take(0) == Seq::<ClipboardStrategy>::empty());
    while i < verdicts.len()
        invariant
            i <= verdicts.len(),
            t.image_count == count_of(verdicts@.take(i as int), ClipboardStrategy::Image),
            t.file_count == count_of(verdicts@.take(i as int), ClipboardStrategy::File),
            t.text_count == count_of(verdicts@.take(i as int), ClipboardStrategy::Text),
        decreases verdicts.len() - i,
    {
        proof {
            lemma_counts_add_up(verdicts@.take(i as int));
            assert(verdicts@.take(i + 1) == verdicts@.take(i as int).push(verdicts@[i as int]));
            vstd::seq_lib::to_multiset_build(verdicts@.take(i as int), verdicts@[i as int]);
        }
        match verdicts[i] {
            ClipboardStrategy::Image => {
                t.image_count = t.image_count + 1;
            },
            ClipboardStrategy::File => {
                t.file_count = t.file_count + 1;
            },
            ClipboardStrategy::Text => {
                t.text_count = t.text_count + 1;
            },
        }
        i += 1;
    }
    assert(verdicts@.take(i as int) == verdicts@);
    t
}

/// A copy of each path, in order.
pub fn duplicate_paths(paths: &Vec<InputPath>) -> (out: Vec<InputPath>)
    ensures
        path_views(out@) == path_views(paths@),
{
    let mut out: Vec<InputPath> = Vec::new();
    let mut i: usize = 0;
    while i < paths.len()
        invariant
            i <= paths.len(),
            path_views(out@) == path_views(paths@).take(i as int),
        decreases paths.len() - i,
    {
        let item = paths[i].duplicate();
        assert(path_views(out@.push(item)) == path_views(out@).push(item@));
        assert(path_views(paths@).take(i + 1) == path_views(paths@).take(i as int).push(
            paths@[i as int]@,
        ));
        out.push(item);
        i += 1;
    }
    assert(path_views(paths@).take(i as int) == path_views(paths@));
    out
}

/// Applies the policy to a batch of which only the counts are known.
pub fn decide_tally(paths: &Vec<InputPath>, counts: &BatchTally) -> (outcome: DispatchOutcome)
    ensures
        outcome@ == decision(
            path_views(paths@),
            counts.image_count as int,
            counts.file_count as int,
            counts.text_count as int,
        ),
{
    let mut kinds: u8 = 0;
    if counts.image_count > 0 {
        kinds = kinds + 1;
    }
    if counts.file_count > 0 {
        kinds = kinds + 1;
    }
    if counts.text_count > 0 {
        kinds = kinds + 1;
    }
    if kinds > 1 {
        DispatchOutcome::RejectedMixed {
            image_count: counts.image_count,
            file_count: counts.file_count,
            text_count: counts.text_count,
        }
    } else if counts.image_count > 0 {
        if paths.len() == 1 {
            DispatchOutcome::SingleImage(paths[0].duplicate())
        } else {
            DispatchOutcome::MultiAsFileObjects(duplicate_paths(paths))
        }
    } else if counts.file_count > 0 {
        DispatchOutcome::MultiAsFileObjects(duplicate_paths(paths))
    } else {
        DispatchOutcome::FallThroughText
    }
}

/// Applies the policy to a batch: `verdicts` holds the verdict on each of
/// `paths`.
pub fn decide(paths: &Vec<InputPath>, verdicts: &Vec<ClipboardStrategy>) -> (outcome:
    DispatchOutcome)
    ensures
        outcome@ == batch_decision(path_views(paths@), verdicts@),
{
    let counts = tally(verdicts);
    decide_tally(paths, &counts)
}

/// What a user is told of a batch that mixes kinds.
pub open spec fn mixed_content_text(images: nat, files: nat, texts: nat) -> Seq<char> {
    "Mixed content detected! ("@ + decimal_digits(images) + " images, "@ + decimal_digits(files)
        + " files/assets, "@ + decimal_digits(texts)
        + " text). Please run separate commands for each type."@
}

/// What a user is told of a batch that mixes kinds.
pub fn mixed_content_message(image_count: usize, file_count: usize, text_count: usize) -> (text:
    String)
    ensures
        text@ == mixed_content_text(image_count as nat, file_count as nat, text_count as nat),
{
    let mut text = "Mixed content detected! (".to_owned();
    text.append(decimal(image_count).as_str());
    text.append(" images, ");
    text.append(decimal(file_count).as_str());
    text.append(" files/assets, ");
    text.append(decimal(text_count).as_str());
    text.append(" text). Please run separate commands for each type.");
    text
}

} // verus!
