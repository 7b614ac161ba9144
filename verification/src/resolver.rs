//! Which image source is asked next, and what a resolution ends with.
//!
//! The resolver never fetches anything itself. It names the address to ask
//! next; the caller performs the request and hands the answer back.

use vstd::prelude::*;
use crate::error::Error;
use crate::picture::{
    decode_with, decodes_to, decoding, outcome_of, ImageKind, Outcome, Picture, PictureView,
};

verus! {

/// Where the avatar of a player can be had: one address, and others to try
/// should that one fail. Each of those may name further ones in turn; only
/// the first level is ever tried.
#[derive(Debug)]
pub struct AvatarInfo {
    pub url: String,
    pub fallbacks: Vec<AvatarInfo>,
}

/// The addresses of the first-level fallbacks, in the order given.
pub open spec fn fallback_urls(info: AvatarInfo) -> Seq<Seq<char>> {
    Seq::new(info.fallbacks@.len(), |i: int| info.fallbacks@[i].url@)
}

/// The answer to a request for an image: the body, and the format that
/// its declared content type selected, if it declared one.
#[derive(Debug)]
pub struct Response {
    pub body: Vec<u8>,
    pub format: Option<ImageKind>,
}

/// A resolution that waits for the answer of one image source.
#[derive(Debug)]
pub struct Resolver {
    error: Option<Error>,
    fallbacks: Vec<String>,
    current: usize,
}

/// What a `Resolver` is, mathematically.
pub enum ResolverView {
    /// The first address was asked.
    Primary { fallbacks: Seq<Seq<char>> },
    /// The first address failed with `error`, and the fallback at place
    /// `current` was asked.
    Fallback { error: Error, fallbacks: Seq<Seq<char>>, current: nat },
}

/// What the resolver wants next.
#[derive(Debug)]
pub enum Step {
    /// Ask this address, and hand the answer to this resolver.
    Fetch(Resolver, String),
    /// The avatar is this picture.
    Resolved(Picture),
    /// No avatar can be had.
    Failed(Error),
}

/// What a `Step` is, mathematically.
pub enum StepView {
    Fetch(ResolverView, Seq<char>),
    Resolved(PictureView),
    Failed(Error),
}

/// The texts of a list of addresses.
pub open spec fn texts(urls: Seq<String>) -> Seq<Seq<char>> {
    Seq::new(urls.len(), |i: int| urls[i]@)
}

impl ResolverView {
    /// Whether the fallback that is being asked exists.
    pub open spec fn wf(self) -> bool {
        match self {
            ResolverView::Primary { .. } => true,
            ResolverView::Fallback { fallbacks, current, .. } => current < fallbacks.len(),
        }
    }

    /// The step that follows an answer. A picture ends the resolution. A
    /// failure moves on to the next fallback in the list; when there is
    /// none left, the resolution fails with the error of the first address,
    /// whatever the fallbacks failed with.
    pub open spec fn after_outcome(self, outcome: Outcome) -> StepView {
        match outcome {
            Ok(picture) => StepView::Resolved(picture),
            Err(e) => match self {
                ResolverView::Primary { fallbacks } => if fallbacks.len() == 0 {
                    StepView::Failed(e)
                } else {
                    StepView::Fetch(
                        ResolverView::Fallback { error: e, fallbacks, current: 0 },
                        fallbacks[0],
                    )
                },
                ResolverView::Fallback { error, fallbacks, current } => if current + 1
                    < fallbacks.len() {
                    StepView::Fetch(
                        ResolverView::Fallback { error, fallbacks, current: current + 1 },
                        fallbacks[(current + 1) as int],
                    )
                } else {
                    StepView::Failed(error)
                },
            },
        }
    }
}

/// The step that follows the answer of the metadata endpoint. A failure
/// there ends the resolution at once: no fallback stands in for metadata.
pub open spec fn after_metadata(metadata: Result<AvatarInfo, Error>) -> StepView {
    match metadata {
        Err(e) => StepView::Failed(e),
        Ok(info) => StepView::Fetch(
            ResolverView::Primary { fallbacks: fallback_urls(info) },
            info.url@,
        ),
    }
}

impl View for Resolver {
    type V = ResolverView;

    closed spec fn view(&self) -> ResolverView {
        match self.error {
            None => ResolverView::Primary { fallbacks: texts(self.fallbacks@) },
            Some(error) => ResolverView::Fallback {
                error,
                fallbacks: texts(self.fallbacks@),
                current: self.current as nat,
            },
        }
    }
}

impl View for Step {
    type V = StepView;

    open spec fn view(&self) -> StepView {
        match self {
            Step::Fetch(resolver, url) => StepView::Fetch(resolver@, url@),
            Step::Resolved(picture) => StepView::Resolved(picture@),
            Step::Failed(e) => StepView::Failed(*e),
        }
    }
}

impl Resolver {
    #[verifier::type_invariant]
    spec fn inv(self) -> bool {
        &&& self.error is Some ==> self.current < self.fallbacks@.len()
        &&& self.error is None ==> self.current == 0
    }

    /// Begins a resolution with the answer of the metadata endpoint.
    pub fn start(metadata: Result<AvatarInfo, Error>) -> (step: Step)
        ensures
            step@ == after_metadata(metadata),
            step matches Step::Fetch(resolver, _) ==> resolver@.wf(),
    {
        match metadata {
            Err(e) => Step::Failed(e),
            Ok(info) => {
                let ghost wanted = fallback_urls(info);
                let AvatarInfo { url, fallbacks } = info;
                let mut urls: Vec<String> = Vec::new();
                let mut i: usize = 0;
                while i < fallbacks.len()
                    invariant
                        0 <= i <= fallbacks@.len(),
                        urls@.len() == i,
                        wanted.len() == fallbacks@.len(),
                        forall|j: int| 0 <= j < fallbacks@.len() ==> wanted[j] == fallbacks@[j].url@,
                        forall|j: int| 0 <= j < i ==> (#[trigger] urls@[j])@ == wanted[j],
                    decreases fallbacks@.len() - i,
                {
                    urls.push(fallbacks[i].url.clone());
                    i = i + 1;
                }
                assert(texts(urls@) =~= wanted);
                Step::Fetch(Resolver { error: None, fallbacks: urls, current: 0 }, url)
            },
        }
    }

    /// Takes the answer of the source that was asked, decoded or failed,
    /// and says what follows.
    pub fn on_outcome(self, outcome: Result<Picture, Error>) -> (step: Step)
        ensures
            step@ == self@.after_outcome(outcome_of(outcome)),
            step matches Step::Fetch(resolver, _) ==> resolver@.wf(),
    {
        proof {
            use_type_invariant(&self);
        }
        match outcome {
            Ok(picture) => Step::Resolved(picture),
            Err(e) => {
                let Resolver { error, fallbacks, current } = self;
                let count = fallbacks.len();
                match error {
                    None => {
                        if count == 0 {
                            Step::Failed(e)
                        } else {
                            let url = fallbacks[0].clone();
                            Step::Fetch(Resolver { error: Some(e), fallbacks, current: 0 }, url)
                        }
                    },
                    Some(first) => {
                        if current + 1 < count {
                            let url = fallbacks[current + 1].clone();
                            Step::Fetch(
                                Resolver { error: Some(first), fallbacks, current: current + 1 },
                                url,
                            )
                        } else {
                            Step::Failed(first)
                        }
                    },
                }
            },
        }
    }

    /// Takes the answer of the source that was asked as it came from the
    /// network, decodes the body where there is one, and says what follows:
    /// the step after the way in which decoding that body ends. A body that
    /// cannot be decoded counts as a failure of that source.
    pub fn on_response(self, response: Result<Response, Error>) -> (step: Step)
        ensures
            match response {
                Err(e) => step@ == self@.after_outcome(Err(e)),
                Ok(answer) => exists|outcome: Outcome| #[trigger]
                    decodes_to(decoding(answer.body@, answer.format), outcome) && step@
                        == self@.after_outcome(outcome),
            },
            step matches Step::Fetch(resolver, _) ==> resolver@.wf(),
    {
        match response {
            Err(e) => self.on_outcome(Err(e)),
            Ok(answer) => {
                let decoded = decode_with(answer.body.as_slice(), answer.format);
                proof {
                    assert(decodes_to(decoding(answer.body@, answer.format), outcome_of(decoded)));
                }
                self.on_outcome(decoded)
            },
        }
    }
}

/// The picture of the first answer that has one, if any has.
pub open spec fn first_success(answers: Seq<Outcome>) -> Option<PictureView>
    decreases answers.len(),
{
    if answers.len() == 0 {
        None
    } else {
        match answers[0] {
            Ok(picture) => Some(picture),
            Err(_) => first_success(answers.drop_first()),
        }
    }
}

/// What a resolution ends with when the first address answers `primary`
/// and the fallbacks, in their order, would answer `answers`: the first
/// picture among them all, and without any the error of the first address.
pub open spec fn resolution(primary: Outcome, answers: Seq<Outcome>) -> Outcome {
    match primary {
        Ok(picture) => Ok(picture),
        Err(e) => match first_success(answers) {
            Some(picture) => Ok(picture),
            None => Err(e),
        },
    }
}

/// What a resolver ends with when its requests are answered by `answers`,
/// one after the other; `None` if it still waits when they are used up.
pub open spec fn run(state: ResolverView, answers: Seq<Outcome>) -> Option<Outcome>
    decreases answers.len(),
{
    if answers.len() == 0 {
        None
    } else {
        match state.after_outcome(answers[0]) {
            StepView::Fetch(next, _) => run(next, answers.drop_first()),
            StepView::Resolved(picture) => Some(Ok(picture)),
            StepView::Failed(e) => Some(Err(e)),
        }
    }
}

/// The addresses that a resolver asks while its requests are answered by
/// `answers`, one after the other.
pub open spec fn asked(state: ResolverView, answers: Seq<Outcome>) -> Seq<Seq<char>>
    decreases answers.len(),
{
    if answers.len() == 0 {
        Seq::empty()
    } else {
        match state.after_outcome(answers[0]) {
            StepView::Fetch(next, url) => seq![url] + asked(next, answers.drop_first()),
            _ => Seq::empty(),
        }
    }
}

/// The smaller of a wanted length and the length that there is.
pub open spec fn at_most(wanted: nat, len: nat) -> int {
    if wanted < len {
        wanted as int
    } else {
        len as int
    }
}

/// The number of answers in front of the first one that has a picture.
pub open spec fn failures_in_front(answers: Seq<Outcome>) -> nat
    decreases answers.len(),
{
    if answers.len() == 0 || answers[0] is Ok {
        0
    } else {
        1 + failures_in_front(answers.drop_first())
    }
}

proof fn lemma_run_fallbacks(
    error: Error,
    fallbacks: Seq<Seq<char>>,
    current: nat,
    answers: Seq<Outcome>,
)
    requires
        current < fallbacks.len(),
        answers.len() == fallbacks.len() - current,
    ensures
        run(ResolverView::Fallback { error, fallbacks, current }, answers) == Some(
            match first_success(answers) {
                Some(picture) => Ok::<PictureView, Error>(picture),
                None => Err(error),
            },
        ),
    decreases answers.len(),
{
    if answers[0] is Err {
        if current + 1 < fallbacks.len() {
            lemma_run_fallbacks(error, fallbacks, current + 1, answers.drop_first());
        } else {
            assert(answers.drop_first().len() == 0);
        }
    }
}

/// However the sources answer, a resolution ends with the first picture
/// that the first address and then the fallbacks, taken in their order,
/// can give; if none of them gives one, it fails with the error of the
/// first address.
pub proof fn lemma_run_is_resolution(
    fallbacks: Seq<Seq<char>>,
    primary: Outcome,
    answers: Seq<Outcome>,
)
    requires
        answers.len() == fallbacks.len(),
    ensures
        run(ResolverView::Primary { fallbacks }, seq![primary] + answers) == Some(
            resolution(primary, answers),
        ),
{
    let all = seq![primary] + answers;
    assert(all[0] == primary);
    assert(all.drop_first() =~= answers);
    if primary is Err && fallbacks.len() > 0 {
        lemma_run_fallbacks(primary->Err_0, fallbacks, 0, answers);
    }
}

/// Where the first address fails and the first fallback has a picture, the
/// resolution ends with that picture.
pub proof fn lemma_first_fallback_stands_in(
    fallbacks: Seq<Seq<char>>,
    primary: Outcome,
    answers: Seq<Outcome>,
)
    requires
        answers.len() == fallbacks.len(),
        primary is Err,
        answers.len() > 0,
        answers[0] is Ok,
    ensures
        run(ResolverView::Primary { fallbacks }, seq![primary] + answers) == Some(
            Ok::<PictureView, Error>(answers[0]->Ok_0),
        ),
{
    lemma_run_is_resolution(fallbacks, primary, answers);
}

proof fn lemma_no_success(answers: Seq<Outcome>)
    requires
        forall|i: int| 0 <= i < answers.len() ==> (#[trigger] answers[i]) is Err,
    ensures
        first_success(answers) is None,
    decreases answers.len(),
{
    if answers.len() > 0 {
        let rest = answers.drop_first();
        assert forall|i: int| 0 <= i < rest.len() implies (#[trigger] rest[i]) is Err by {
            assert(rest[i] == answers[i + 1]);
        }
        lemma_no_success(rest);
    }
}

/// Where the first address and every fallback fail, the resolution fails
/// with the error of the first address, whatever the fallbacks failed with,
/// and gives no picture.
pub proof fn lemma_exhausted_keeps_first_error(
    fallbacks: Seq<Seq<char>>,
    primary: Outcome,
    answers: Seq<Outcome>,
)
    requires
        answers.len() == fallbacks.len(),
        primary is Err,
        forall|i: int| 0 <= i < answers.len() ==> (#[trigger] answers[i]) is Err,
    ensures
        run(ResolverView::Primary { fallbacks }, seq![primary] + answers) == Some(
            Err::<PictureView, Error>(primary->Err_0),
        ),
{
    lemma_run_is_resolution(fallbacks, primary, answers);
    lemma_no_success(answers);
}

proof fn lemma_asked_fallbacks(
    error: Error,
    fallbacks: Seq<Seq<char>>,
    current: nat,
    answers: Seq<Outcome>,
)
    requires
        current < fallbacks.len(),
        answers.len() == fallbacks.len() - current,
    ensures
        asked(ResolverView::Fallback { error, fallbacks, current }, answers)
            == fallbacks.subrange(
            (current + 1) as int,
            at_most(current + 1 + failures_in_front(answers), fallbacks.len()),
        ),
    decreases answers.len(),
{
    let state = ResolverView::Fallback { error, fallbacks, current };
    if answers[0] is Err {
        let rest = answers.drop_first();
        if current + 1 < fallbacks.len() {
            lemma_asked_fallbacks(error, fallbacks, current + 1, rest);
            let next = ResolverView::Fallback { error, fallbacks, current: current + 1 };
            assert(asked(state, answers) == seq![fallbacks[(current + 1) as int]] + asked(next, rest));
            assert(asked(state, answers) =~= fallbacks.subrange(
                (current + 1) as int,
                at_most(current + 1 + failures_in_front(answers), fallbacks.len()),
            ));
        } else {
            assert(asked(state, answers) =~= Seq::<Seq<char>>::empty());
        }
    } else {
        assert(asked(state, answers) =~= Seq::<Seq<char>>::empty());
    }
}

/// The fallbacks are asked in the order of the list, one for each failure
/// so far and none after the first picture: when the first address fails,
/// the addresses asked after it are the beginning of the list that is one
/// longer than the run of failing fallbacks in front, or the whole list
/// where all fail. When the first address has a picture, none is asked.
pub proof fn lemma_fallbacks_asked_in_order(
    fallbacks: Seq<Seq<char>>,
    primary: Outcome,
    answers: Seq<Outcome>,
)
    requires
        answers.len() == fallbacks.len(),
    ensures
        asked(ResolverView::Primary { fallbacks }, seq![primary] + answers) == (if primary is Ok {
            Seq::<Seq<char>>::empty()
        } else {
            fallbacks.subrange(0, at_most(failures_in_front(answers) + 1, fallbacks.len()))
        }),
{
    let all = seq![primary] + answers;
    let state = ResolverView::Primary { fallbacks };
    assert(all[0] == primary);
    assert(all.drop_first() =~= answers);
    if primary is Err && fallbacks.len() > 0 {
        let e = primary->Err_0;
        lemma_asked_fallbacks(e, fallbacks, 0, answers);
        let next = ResolverView::Fallback { error: e, fallbacks, current: 0 };
        assert(asked(state, all) == seq![fallbacks[0]] + asked(next, answers));
        assert(asked(state, all) =~= fallbacks.subrange(
            0,
            at_most(failures_in_front(answers) + 1, fallbacks.len()),
        ));
    } else {
        assert(asked(state, all) =~= Seq::<Seq<char>>::empty());
        assert(fallbacks.subrange(0, 0) =~= Seq::<Seq<char>>::empty());
    }
}

} // verus!
