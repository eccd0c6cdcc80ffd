//! The renders of one build, listed once the walk is over: every template
//! that no script asked for, then what the scripts asked for.

use vstd::prelude::*;
use vstd::utf8::encode_utf8;
use crate::fsutil::parent;
use crate::jinja2::{engine_output, finished, unreadable, with_base, JinjaEnvironment};
use crate::lua::{Render, RenderView, State, StateView};
use crate::minify::WrittenView;
use crate::paths::{place_within, within};
use crate::walk::Walker;

verus! {

/// Whether a render in `queue` is of the template `name`.
pub open spec fn claimed(queue: Seq<RenderView>, name: Seq<char>) -> bool {
    exists|i: int| 0 <= i < queue.len() && #[trigger] queue[i].template == name
}

/// The test for a template that no render in `queue` is of.
pub open spec fn unclaimed(queue: Seq<RenderView>) -> spec_fn(Seq<char>) -> bool {
    |name: Seq<char>| !claimed(queue, name)
}

/// The templates that are rendered without being asked for: those of
/// `names` that no render in `queue` is of, in the order of `names`.
pub open spec fn swept(names: Seq<Seq<char>>, queue: Seq<RenderView>) -> Seq<Seq<char>> {
    names.filter(unclaimed(queue))
}

/// The render of a template that was not asked for: into the file of the
/// template's name in the output tree `dist`, with the variables given to
/// every render.
pub open spec fn sweep_job(
    name: Seq<char>,
    globals: Map<Seq<char>, Seq<char>>,
    dist: Seq<u8>,
) -> RenderView {
    RenderView { template: name, target: within(dist, encode_utf8(name)), context: globals }
}

/// A render that was asked for, as it is made: its own variables lie over
/// those given to every render.
pub open spec fn queued_job(job: RenderView, globals: Map<Seq<char>, Seq<char>>) -> RenderView {
    RenderView {
        template: job.template,
        target: job.target,
        context: globals.union_prefer_right(job.context),
    }
}

/// The renders of a build that found the templates `names` and whose
/// scripts left `state` behind: first the templates not asked for, then the
/// renders asked for, in the order of the calls.
pub open spec fn planned(names: Seq<Seq<char>>, state: StateView, dist: Seq<u8>) -> Seq<
    RenderView,
> {
    swept(names, state.render_queue).map_values(
        |name: Seq<char>| sweep_job(name, state.global_context, dist),
    ) + state.render_queue.map_values(|job: RenderView| queued_job(job, state.global_context))
}

/// What the render `job` writes in a build that found `templates`, where
/// the transform against scraping is switched off: nothing where the
/// render fails.
pub open spec fn page_of(
    templates: Map<Seq<char>, Seq<char>>,
    job: RenderView,
    prod: bool,
) -> Option<WrittenView> {
    if parent(job.target) is None || unreadable(with_base(job.context, prod)) {
        None
    } else {
        match engine_output(templates, job.template, with_base(job.context, prod)) {
            Ok(text) => Some(finished(job.target, text, prod)),
            Err(_) => None,
        }
    }
}

/// The files that a build writes for its templates, each with what goes into
/// it, in the order of the renders.
pub open spec fn pages_of(
    templates: Map<Seq<char>, Seq<char>>,
    names: Seq<Seq<char>>,
    state: StateView,
    dist: Seq<u8>,
    prod: bool,
) -> Seq<(Seq<u8>, Option<WrittenView>)> {
    planned(names, state, dist).map_values(
        |job: RenderView| (job.target, page_of(templates, job, prod)),
    )
}

/// A build that is run again on the same templates, with the same results
/// of its scripts, writes the same bytes to the same files.
pub proof fn lemma_same_build_same_pages(
    templates: Map<Seq<char>, Seq<char>>,
    names: Seq<Seq<char>>,
    state: StateView,
    again_templates: Map<Seq<char>, Seq<char>>,
    again_names: Seq<Seq<char>>,
    again_state: StateView,
    dist: Seq<u8>,
    prod: bool,
)
    requires
        templates == again_templates,
        names == again_names,
        state.render_queue == again_state.render_queue,
        state.global_context == again_state.global_context,
    ensures
        pages_of(templates, names, state, dist, prod) == pages_of(
            again_templates,
            again_names,
            again_state,
            dist,
            prod,
        ),
{
    assert(planned(names, state, dist) =~= planned(again_names, again_state, dist));
}

/// The templates rendered without being asked for are all that were found
/// less those that a script asked for: each such template once, and no
/// other.
pub proof fn lemma_sweep_is_all_but_claimed(names: Seq<Seq<char>>, queue: Seq<RenderView>)
    requires
        names.no_duplicates(),
    ensures
        swept(names, queue).no_duplicates(),
        forall|name: Seq<char>|
            swept(names, queue).contains(name) <==> names.contains(name) && !claimed(
                queue,
                name,
            ),
    decreases names.len(),
{
    reveal(Seq::filter);
    let pred = unclaimed(queue);
    if names.len() > 0 {
        let front = names.drop_last();
        let last = names.last();
        assert forall|i: int, j: int| 0 <= i < front.len() && 0 <= j < front.len() && i
            != j implies front[i] != front[j] by {
            assert(front[i] == names[i] && front[j] == names[j]);
        }
        lemma_sweep_is_all_but_claimed(front, queue);
        let sub = swept(front, queue);
        assert(!front.contains(last)) by {
            if front.contains(last) {
                let i = choose|i: int| 0 <= i < front.len() && front[i] == last;
                assert(names[i] == names[names.len() - 1]);
            }
        }
        assert forall|name: Seq<char>|
            swept(names, queue).contains(name) <==> names.contains(name) && !claimed(
                queue,
                name,
            ) by {
            if names.contains(name) {
                let i = choose|i: int| 0 <= i < names.len() && names[i] == name;
                if i < front.len() {
                    assert(front[i] == name);
                }
            }
            if front.contains(name) {
                let i = choose|i: int| 0 <= i < front.len() && front[i] == name;
                assert(names[i] == name);
            }
            if pred(last) {
                assert(swept(names, queue) == sub.push(last));
                if sub.contains(name) {
                    let i = choose|i: int| 0 <= i < sub.len() && sub[i] == name;
                    assert(sub.push(last)[i] == name);
                }
                if name == last {
                    assert(sub.push(last)[sub.len() as int] == name);
                    assert(names[names.len() - 1] == name);
                }
            } else {
                assert(swept(names, queue) == sub);
            }
        }
        if pred(last) {
            assert(!sub.contains(last));
            assert forall|i: int, j: int|
                0 <= i < sub.push(last).len() && 0 <= j < sub.push(last).len() && i
                    != j implies sub.push(last)[i] != sub.push(last)[j] by {
                if i < sub.len() && j < sub.len() {
                } else if i < sub.len() {
                    assert(sub.contains(sub[i]));
                } else {
                    assert(sub.contains(sub[j]));
                }
            }
        }
    }
}

/// Whether a render in `queue` is of the template `name`.
pub fn is_claimed(queue: &Vec<Render>, name: &String) -> (r: bool)
    ensures
        r == claimed(queue@.map_values(|job: Render| job@), name@),
{
    let ghost jobs = queue@.map_values(|job: Render| job@);
    let mut i: usize = 0;
    while i < queue.len()
        invariant
            i <= queue.len(),
            jobs == queue@.map_values(|job: Render| job@),
            forall|j: int| 0 <= j < i ==> jobs[j].template != name@,
        decreases queue.len() - i,
    {
        if queue[i].template == *name {
            assert(jobs[i as int].template == name@);
            return true;
        }
        i += 1;
    }
    false
}

/// Lists the renders of a build whose walk filled `env` and whose scripts
/// left `state` behind, for the output tree of the walk. There is no list
/// before the walk is over: until then templates may be missing.
pub fn render_html(env: &JinjaEnvironment, state: &State, walker: &Walker) -> (r: Option<
    Vec<Render>,
>)
    ensures
        match r {
            Some(jobs) => walker.upcoming().len() == 0 && jobs@.map_values(|job: Render| job@)
                == planned(env.names(), state@, walker.output_root()),
            None => walker.upcoming().len() > 0,
        },
{
    if walker.is_done() {
        Some(list_renders(env, state, walker.output_tree()))
    } else {
        None
    }
}

/// Lists the renders for the templates of `env` and the results `state` of
/// the scripts, for the output tree `dist`.
pub fn list_renders(env: &JinjaEnvironment, state: &State, dist: &[u8]) -> (r: Vec<Render>)
    ensures
        r@.map_values(|job: Render| job@) == planned(env.names(), state@, dist@),
{
    let names = env.all();
    let ghost all = env.names();
    let ghost queue = state@.render_queue;
    let ghost globals = state@.global_context;
    let ghost sweep = |name: Seq<char>| sweep_job(name, globals, dist@);
    let ghost keep = |job: RenderView| queued_job(job, globals);
    let mut out: Vec<Render> = Vec::new();
    let mut i: usize = 0;
    proof {
        reveal(Seq::filter);
        assert(all.take(0) =~= Seq::<Seq<char>>::empty());
        assert(out@.map_values(|job: Render| job@) =~= swept(all.take(0), queue).map_values(sweep));
    }
    while i < names.len()
        invariant
            i <= names.len(),
            names@.map_values(|s: String| s@) == all,
            queue == state@.render_queue,
            globals == state@.global_context,
            sweep == |name: Seq<char>| sweep_job(name, globals, dist@),
            out@.map_values(|job: Render| job@) == swept(all.take(i as int), queue).map_values(
                sweep,
            ),
        decreases names.len() - i,
    {
        let ghost seen = all.take(i as int);
        proof {
            assert(all.take(i + 1) =~= seen.push(all[i as int]));
            seen.lemma_filter_push(all[i as int], unclaimed(queue));
            assert(names@[i as int]@ == all[i as int]);
        }
        if !is_claimed(&state.render_queue, &names[i]) {
            let job = Render {
                template: names[i].clone(),
                target: place_within(dist, names[i].as_str().as_bytes()),
                context: state.global_context.duplicate(),
            };
            assert(job@ == sweep(all[i as int]));
            let ghost before = out@.map_values(|job: Render| job@);
            out.push(job);
            assert(out@.map_values(|job: Render| job@) =~= before.push(job@));
            assert(swept(seen, queue).push(all[i as int]).map_values(sweep) =~= swept(
                seen,
                queue,
            ).map_values(sweep).push(sweep(all[i as int])));
        }
        i += 1;
    }
    assert(all.take(names.len() as int) =~= all);
    let ghost swept_jobs = out@.map_values(|job: Render| job@);
    let mut k: usize = 0;
    assert(queue.take(0).map_values(keep) =~= Seq::<RenderView>::empty());
    assert(out@.map_values(|job: Render| job@) =~= swept_jobs + queue.take(0).map_values(keep));
    while k < state.render_queue.len()
        invariant
            k <= state.render_queue.len(),
            queue == state@.render_queue,
            globals == state@.global_context,
            keep == |job: RenderView| queued_job(job, globals),
            out@.map_values(|job: Render| job@) == swept_jobs + queue.take(k as int).map_values(
                keep,
            ),
        decreases state.render_queue.len() - k,
    {
        let asked = &state.render_queue[k];
        let job = Render {
            template: asked.template.clone(),
            target: asked.target.clone(),
            context: state.global_context.merge(&asked.context),
        };
        assert(queue[k as int] == asked@);
        assert(job@ == keep(queue[k as int]));
        let ghost before = out@.map_values(|job: Render| job@);
        out.push(job);
        assert(out@.map_values(|job: Render| job@) =~= before.push(job@));
        assert(queue.take(k + 1).map_values(keep) =~= queue.take(k as int).map_values(keep).push(
            keep(queue[k as int]),
        ));
        k += 1;
    }
    assert(queue.take(state.render_queue.len() as int) =~= queue);
    out
}

} // verus!
