//! What the scripts of a build leave behind: the renders they asked for and
//! the variables they gave to every render. The host functions that a script
//! calls are the methods of `State`.

use vstd::prelude::*;
use crate::dict::Dict;
use crate::fs::Timestamp;
use crate::paths::{place_within, within};

verus! {

/// A render that a script asked for.
pub struct Render {
    /// The name of the template.
    pub template: String,
    /// The file to write.
    pub target: Vec<u8>,
    /// The variables of this render, each as JSON text.
    pub context: Dict,
}

/// What a `Render` holds.
pub struct RenderView {
    pub template: Seq<char>,
    pub target: Seq<u8>,
    pub context: Map<Seq<char>, Seq<char>>,
}

impl View for Render {
    type V = RenderView;

    open spec fn view(&self) -> RenderView {
        RenderView { template: self.template@, target: self.target@, context: self.context@ }
    }
}

/// What the scripts of one build have asked for so far.
pub struct State {
    /// The renders asked for, in the order of the calls.
    pub render_queue: Vec<Render>,
    /// The variables given to every render, each as JSON text.
    pub global_context: Dict,
}

/// What a `State` holds.
pub struct StateView {
    pub render_queue: Seq<RenderView>,
    pub global_context: Map<Seq<char>, Seq<char>>,
}

impl View for State {
    type V = StateView;

    open spec fn view(&self) -> StateView {
        StateView {
            render_queue: self.render_queue@.map_values(|r: Render| r@),
            global_context: self.global_context@,
        }
    }
}

/// How chrono writes the time `nanos` nanoseconds into the second `secs`
/// since the start of 1970, in UTC, in its format `%+`; nothing where chrono
/// cannot hold that time.
pub uninterp spec fn iso_text(secs: int, nanos: int) -> Option<Seq<char>>;

/// chrono's `DateTime::from_timestamp`, and on the time it gives
/// `DateTime::format` with `%+`, written out. The claim is that the text
/// depends on the two numbers alone.
#[verifier::external_body]
fn iso_of(secs: i64, nanos: u32) -> (r: Option<String>)
    ensures
        match r {
            Some(text) => iso_text(secs as int, nanos as int) == Some(text@),
            None => iso_text(secs as int, nanos as int) is None,
        },
{
    chrono::DateTime::from_timestamp(secs, nanos).map(|at| at.format("%+").to_string())
}

/// The time `at` as the scripts get it: date, time of day and offset in one
/// text. `None` where the time is outside what the calendar can hold.
pub fn fmt_iso(at: Timestamp) -> (r: Option<String>)
    ensures
        match r {
            Some(text) => iso_text(at.secs as int, at.nanos as int) == Some(text@),
            None => iso_text(at.secs as int, at.nanos as int) is None,
        },
{
    iso_of(at.secs, at.nanos)
}

/// What a script gets back from a host function, and what is logged: the
/// value where the call went well; where it failed, nothing, and the
/// failure goes to the log. No failure reaches the script as an error.
pub fn settle<T, E>(outcome: Result<T, E>) -> (r: (Option<T>, Option<E>))
    ensures
        match outcome {
            Ok(value) => r == (Some(value), None::<E>),
            Err(why) => r == (None::<T>, Some(why)),
        },
{
    match outcome {
        Ok(value) => (Some(value), None),
        Err(why) => (None, Some(why)),
    }
}

impl State {
    /// The state before any script has run.
    pub fn new() -> (r: State)
        ensures
            r@.render_queue == Seq::<RenderView>::empty(),
            r@.global_context == Map::<Seq<char>, Seq<char>>::empty(),
    {
        let r = State { render_queue: Vec::new(), global_context: Dict::new() };
        assert(r@.render_queue =~= Seq::<RenderView>::empty());
        r
    }

    /// The host function `render`: asks for `template` to be rendered with
    /// `context` into `target`, a place within the output tree `dist`.
    /// Nothing is rendered now; the request goes to the end of the queue.
    pub fn render(&mut self, template: String, target: &[u8], context: Dict, dist: &[u8])
        ensures
            final(self)@.render_queue == old(self)@.render_queue.push(
                RenderView {
                    template: template@,
                    target: within(dist@, target@),
                    context: context@,
                },
            ),
            final(self)@.global_context == old(self)@.global_context,
    {
        let job = Render { template, target: place_within(dist, target), context };
        self.render_queue.push(job);
        assert(self@.render_queue =~= old(self)@.render_queue.push(job@));
    }

    /// The host function `inject`: gives every render of the build the
    /// variable `name` with the JSON text `value`. A later call for the same
    /// name replaces the value.
    pub fn inject(&mut self, name: String, value: String)
        ensures
            final(self)@.global_context == old(self)@.global_context.insert(name@, value@),
            final(self)@.render_queue == old(self)@.render_queue,
    {
        self.global_context.insert(name, value);
    }
}

} // verus!
