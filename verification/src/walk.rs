//! The walk through the source tree, which decides for every path what is
//! done with it.

use vstd::prelude::*;
use vstd::utf8::{decode_utf8, valid_utf8};
use crate::fs::{is_stale, Timestamp};
use crate::fsutil::{
    bytes_eq, css_ext, extension, extension_of_path, html_ext, is_hidden, is_underscored, js_ext,
    replace_extension, script_ext, stylesheet_ext, template_ext, with_extension,
};
use crate::jinja2::{template_name, template_name_bytes, NameError};
use crate::minify::Type;
use crate::order::{byte_order, deep, sort_paths};
use crate::paths::{mirror, mirrored};

verus! {

/// What a path in the source tree is to the build.
#[derive(Debug, Clone, Copy, PartialEq, Eq, Structural)]
pub enum Kind {
    /// A directory, to be entered.
    Directory,
    /// The source of a template.
    Template,
    /// The source of a stylesheet.
    Stylesheet,
    /// A script that runs during the build.
    Script,
    /// Any other file.
    Asset,
}

/// The kind of `path`: a directory where the file system says so, else by
/// the extension, and an asset where the extension has no kind of its own.
pub open spec fn kind_of(path: Seq<u8>, is_dir: bool) -> Kind {
    if is_dir {
        Kind::Directory
    } else if extension(path) == Some(template_ext()) {
        Kind::Template
    } else if extension(path) == Some(stylesheet_ext()) {
        Kind::Stylesheet
    } else if extension(path) == Some(script_ext()) {
        Kind::Script
    } else {
        Kind::Asset
    }
}

/// The kind of content as which an asset is made smaller, by its extension.
pub open spec fn minified_as(path: Seq<u8>) -> Option<Type> {
    if extension(path) == Some(js_ext()) {
        Some(Type::Js)
    } else if extension(path) == Some(html_ext()) {
        Some(Type::Html)
    } else {
        None
    }
}

/// What the file system says of a path that the walk has come to.
#[derive(Debug, Clone, Copy)]
pub enum Entry {
    /// It is a directory.
    Directory,
    /// It is a file.
    File {
        /// When the file last changed.
        changed: Timestamp,
        /// When the file that mirrors it in the output tree last changed,
        /// if there is one.
        output_changed: Option<Timestamp>,
    },
}

/// What is to be done with a path.
#[derive(Debug)]
pub enum Action {
    /// Make the directory `dest`, then hand the directory's entries to the
    /// walk.
    Descend { dest: Vec<u8> },
    /// The file was handled before: do nothing.
    Skip,
    /// Read the file and keep it as the source of the template `name`.
    Collect { name: String },
    /// Compile the stylesheet, with `load_path` as the directory in which
    /// the files it imports are looked for, and write the result to `dest`.
    Compile { dest: Vec<u8>, load_path: Vec<u8> },
    /// Run the script.
    Execute,
    /// Make the file smaller as `kind` and write the result to `dest`.
    Minify { dest: Vec<u8>, kind: Type },
    /// Copy the file to `dest` byte for byte.
    Copy { dest: Vec<u8> },
    /// The file is hidden: it gets no output of its own.
    Nothing,
}

/// What an `Action` holds.
pub enum ActionView {
    Descend { dest: Seq<u8> },
    Skip,
    Collect { name: Seq<char> },
    Compile { dest: Seq<u8>, load_path: Seq<u8> },
    Execute,
    Minify { dest: Seq<u8>, kind: Type },
    Copy { dest: Seq<u8> },
    Nothing,
}

impl View for Action {
    type V = ActionView;

    open spec fn view(&self) -> ActionView {
        match *self {
            Action::Descend { dest } => ActionView::Descend { dest: dest@ },
            Action::Skip => ActionView::Skip,
            Action::Collect { name } => ActionView::Collect { name: name@ },
            Action::Compile { dest, load_path } => ActionView::Compile {
                dest: dest@,
                load_path: load_path@,
            },
            Action::Execute => ActionView::Execute,
            Action::Minify { dest, kind } => ActionView::Minify { dest: dest@, kind },
            Action::Copy { dest } => ActionView::Copy { dest: dest@ },
            Action::Nothing => ActionView::Nothing,
        }
    }
}

/// What is to be done with the file `path` of the source tree `www`, given
/// that `dest` mirrors it in the output tree.
///
/// A template is collected, hidden or not. Any other hidden file gets no
/// output. A stylesheet is compiled into a file with the extension `css`,
/// and what it imports is looked for in the source tree, hidden files
/// included. A script is run. An asset of a kind that can be made smaller is
/// made smaller if its output is stale; every other asset is copied.
pub open spec fn file_action(
    path: Seq<u8>,
    www: Seq<u8>,
    dest: Seq<u8>,
    changed: Timestamp,
    output_changed: Option<Timestamp>,
) -> Result<ActionView, NameError> {
    match kind_of(path, false) {
        Kind::Template => match template_name_bytes(path, www) {
            None => Err(NameError::Outside),
            Some(bytes) => if valid_utf8(bytes) {
                Ok(ActionView::Collect { name: decode_utf8(bytes) })
            } else {
                Err(NameError::NotText)
            },
        },
        kind => if is_hidden(path) {
            Ok(ActionView::Nothing)
        } else {
            match kind {
                Kind::Stylesheet => Ok(
                    ActionView::Compile { dest: with_extension(dest, css_ext()), load_path: www },
                ),
                Kind::Script => Ok(ActionView::Execute),
                _ => match minified_as(path) {
                    Some(kind) => if stale(changed, output_changed) {
                        Ok(ActionView::Minify { dest, kind })
                    } else {
                        Ok(ActionView::Copy { dest })
                    },
                    None => Ok(ActionView::Copy { dest }),
                },
            }
        },
    }
}

/// Whether an output that last changed at `output_changed`, if it exists,
/// is stale for a source that changed at `changed`.
pub open spec fn stale(changed: Timestamp, output_changed: Option<Timestamp>) -> bool {
    match output_changed {
        Some(at) => at.earlier_than(changed),
        None => true,
    }
}

/// The kind of `path`.
pub fn classify(path: &[u8], is_dir: bool) -> (r: Kind)
    ensures
        r == kind_of(path@, is_dir),
{
    let j2: [u8; 2] = [106, 50];
    let scss: [u8; 4] = [115, 99, 115, 115];
    let lua: [u8; 3] = [108, 117, 97];
    assert(j2@ =~= template_ext() && scss@ =~= stylesheet_ext() && lua@ =~= script_ext());
    if is_dir {
        return Kind::Directory;
    }
    match extension_of_path(path) {
        Some(ext) => {
            if bytes_eq(ext.as_slice(), j2.as_slice()) {
                Kind::Template
            } else if bytes_eq(ext.as_slice(), scss.as_slice()) {
                Kind::Stylesheet
            } else if bytes_eq(ext.as_slice(), lua.as_slice()) {
                Kind::Script
            } else {
                Kind::Asset
            }
        },
        None => Kind::Asset,
    }
}

/// The kind of content as which the asset at `path` is made smaller, if it
/// is of such a kind.
pub fn minify_kind(path: &[u8]) -> (r: Option<Type>)
    ensures
        r == minified_as(path@),
{
    let js: [u8; 2] = [106, 115];
    let html: [u8; 4] = [104, 116, 109, 108];
    assert(js@ =~= js_ext() && html@ =~= html_ext());
    match extension_of_path(path) {
        Some(ext) => {
            if bytes_eq(ext.as_slice(), js.as_slice()) {
                Some(Type::Js)
            } else if bytes_eq(ext.as_slice(), html.as_slice()) {
                Some(Type::Html)
            } else {
                None
            }
        },
        None => None,
    }
}

/// `path` with the extension `css` in place of its own.
pub fn with_css(path: Vec<u8>) -> (r: Vec<u8>)
    ensures
        r@ == with_extension(path@, css_ext()),
{
    let css: [u8; 3] = [99, 115, 115];
    assert(css@ =~= css_ext());
    replace_extension(path.as_slice(), css.as_slice())
}

/// Decides what is done with the file `path` of the source tree `www`,
/// which `dest` mirrors in the output tree.
pub fn process_file(
    path: &[u8],
    www: &[u8],
    dest: Vec<u8>,
    changed: Timestamp,
    output_changed: Option<Timestamp>,
) -> (r: Result<Action, NameError>)
    ensures
        match r {
            Ok(action) => file_action(path@, www@, dest@, changed, output_changed) == Ok::<
                ActionView,
                NameError,
            >(action@),
            Err(why) => file_action(path@, www@, dest@, changed, output_changed) == Err::<
                ActionView,
                NameError,
            >(why),
        },
{
    let kind = classify(path, false);
    match kind {
        Kind::Template => match template_name(path, www) {
            Ok(name) => Ok(Action::Collect { name }),
            Err(why) => Err(why),
        },
        _ => {
            if is_underscored(path) {
                Ok(Action::Nothing)
            } else {
                match kind {
                    Kind::Stylesheet => Ok(
                        Action::Compile {
                            dest: with_css(dest),
                            load_path: vstd::slice::slice_to_vec(www),
                        },
                    ),
                    Kind::Script => Ok(Action::Execute),
                    _ => match minify_kind(path) {
                        Some(kind) => if is_stale(changed, output_changed) {
                            Ok(Action::Minify { dest, kind })
                        } else {
                            Ok(Action::Copy { dest })
                        },
                        None => Ok(Action::Copy { dest }),
                    },
                }
            }
        },
    }
}

/// Why the walk stops.
#[derive(Debug, PartialEq, Eq, Structural)]
pub enum WalkError {
    /// A path does not lie under the source tree.
    Outside,
    /// The name of a template is not UTF-8.
    NotText,
}

/// The walk through one source tree: which paths are still to be entered,
/// and which files have been handled.
pub struct Walker {
    www: Vec<u8>,
    dist: Vec<u8>,
    processed: Vec<Vec<u8>>,
    pending: Vec<Vec<u8>>,
}

/// What happens when the walk enters `path`, of which the file system says
/// `entry`, with `processed` as the files handled so far: the files handled
/// after it, and the action or the error.
///
/// A path outside the source tree stops the walk. A directory is to be
/// descended into. A file that was handled before is skipped; any other is
/// handled from now on, whatever comes of it, and gets its `file_action`.
pub open spec fn entered(
    www: Seq<u8>,
    dist: Seq<u8>,
    processed: Set<Seq<u8>>,
    path: Seq<u8>,
    entry: Entry,
) -> (Set<Seq<u8>>, Result<ActionView, WalkError>) {
    match mirrored(path, www, dist) {
        None => (processed, Err(WalkError::Outside)),
        Some(dest) => match entry {
            Entry::Directory => (processed, Ok(ActionView::Descend { dest })),
            Entry::File { changed, output_changed } => if processed.contains(path) {
                (processed, Ok(ActionView::Skip))
            } else {
                (
                    processed.insert(path),
                    match file_action(path, www, dest, changed, output_changed) {
                        Ok(action) => Ok(action),
                        Err(NameError::Outside) => Err(WalkError::Outside),
                        Err(NameError::NotText) => Err(WalkError::NotText),
                    },
                )
            },
        },
    }
}

/// A file is handled once: when the walk comes to it again, whatever the
/// file system then says of it as a file, it is skipped.
pub proof fn lemma_handled_once(
    www: Seq<u8>,
    dist: Seq<u8>,
    processed: Set<Seq<u8>>,
    path: Seq<u8>,
    first: Entry,
    again: Entry,
)
    requires
        mirrored(path, www, dist) is Some,
        first is File,
        again is File,
    ensures
        entered(www, dist, entered(www, dist, processed, path, first).0, path, again) == (
            entered(www, dist, processed, path, first).0,
            Ok::<ActionView, WalkError>(ActionView::Skip),
        ),
{
}

impl Walker {
    /// The source tree.
    pub closed spec fn source_root(self) -> Seq<u8> {
        self.www@
    }

    /// The output tree.
    pub closed spec fn output_root(self) -> Seq<u8> {
        self.dist@
    }

    /// The files handled so far.
    pub closed spec fn processed(self) -> Set<Seq<u8>> {
        deep(self.processed@).to_set()
    }

    /// The paths still to be entered, the next one first.
    pub closed spec fn upcoming(self) -> Seq<Seq<u8>> {
        deep(self.pending@).reverse()
    }

    /// A walk that has the source tree `www` itself to enter, and has
    /// handled no file.
    pub fn new(www: Vec<u8>, dist: Vec<u8>) -> (r: Walker)
        ensures
            r.source_root() == www@,
            r.output_root() == dist@,
            r.processed() == Set::<Seq<u8>>::empty(),
            r.upcoming() == seq![www@],
    {
        let mut pending: Vec<Vec<u8>> = Vec::new();
        pending.push(www.clone());
        let r = Walker { www, dist, processed: Vec::new(), pending };
        assert(r.processed() =~= Set::<Seq<u8>>::empty());
        assert(r.upcoming() =~= seq![www@]);
        r
    }

    /// Whether the walk is over: no path is left to enter.
    pub fn is_done(&self) -> (r: bool)
        ensures
            r == (self.upcoming().len() == 0),
    {
        self.pending.len() == 0
    }

    /// The output tree.
    pub fn output_tree(&self) -> (r: &[u8])
        ensures
            r@ == self.output_root(),
    {
        self.dist.as_slice()
    }

    /// Takes the next path to enter, if any is left.
    pub fn next(&mut self) -> (r: Option<Vec<u8>>)
        ensures
            final(self).source_root() == old(self).source_root(),
            final(self).output_root() == old(self).output_root(),
            final(self).processed() == old(self).processed(),
            match r {
                Some(path) => {
                    &&& old(self).upcoming().len() > 0
                    &&& path@ == old(self).upcoming()[0]
                    &&& final(self).upcoming() == old(self).upcoming().drop_first()
                },
                None => old(self).upcoming().len() == 0 && final(self).upcoming() == old(
                    self,
                ).upcoming(),
            },
    {
        let r = self.pending.pop();
        proof {
            if r is Some {
                assert(deep(self.pending@) =~= deep(old(self).pending@).drop_last());
                assert(self.upcoming() =~= old(self).upcoming().drop_first());
            }
        }
        r
    }

    /// Whether the file `path` has been handled.
    pub fn is_processed(&self, path: &[u8]) -> (r: bool)
        ensures
            r == self.processed().contains(path@),
    {
        let mut i: usize = 0;
        while i < self.processed.len()
            invariant
                i <= self.processed.len(),
                forall|j: int| 0 <= j < i ==> deep(self.processed@)[j] != path@,
            decreases self.processed.len() - i,
        {
            if bytes_eq(self.processed[i].as_slice(), path) {
                assert(deep(self.processed@)[i as int] == path@);
                return true;
            }
            i += 1;
        }
        false
    }

    /// Enters `path`, of which the file system says `entry`, and decides
    /// what is done with it.
    pub fn enter(&mut self, path: &[u8], entry: Entry) -> (r: Result<Action, WalkError>)
        ensures
            final(self).source_root() == old(self).source_root(),
            final(self).output_root() == old(self).output_root(),
            final(self).upcoming() == old(self).upcoming(),
            final(self).processed() == entered(
                old(self).source_root(),
                old(self).output_root(),
                old(self).processed(),
                path@,
                entry,
            ).0,
            match r {
                Ok(action) => entered(
                    old(self).source_root(),
                    old(self).output_root(),
                    old(self).processed(),
                    path@,
                    entry,
                ).1 == Ok::<ActionView, WalkError>(action@),
                Err(why) => entered(
                    old(self).source_root(),
                    old(self).output_root(),
                    old(self).processed(),
                    path@,
                    entry,
                ).1 == Err::<ActionView, WalkError>(why),
            },
    {
        let dest = match mirror(path, self.www.as_slice(), self.dist.as_slice()) {
            Some(dest) => dest,
            None => {
                return Err(WalkError::Outside);
            },
        };
        match entry {
            Entry::Directory => Ok(Action::Descend { dest }),
            Entry::File { changed, output_changed } => {
                if self.is_processed(path) {
                    return Ok(Action::Skip);
                }
                self.processed.push(vstd::slice::slice_to_vec(path));
                assert(deep(self.processed@) =~= deep(old(self).processed@).push(path@));
                assert(self.processed() =~= old(self).processed().insert(path@)) by {
                    assert forall|p: Seq<u8>| self.processed().contains(p) <==> old(
                        self,
                    ).processed().insert(path@).contains(p) by {
                        if deep(self.processed@).contains(p) {
                            let i = choose|i: int|
                                0 <= i < deep(self.processed@).len() && deep(self.processed@)[i]
                                    == p;
                            if i < old(self).processed@.len() {
                                assert(deep(old(self).processed@)[i] == p);
                            }
                        }
                        if deep(old(self).processed@).contains(p) {
                            let i = choose|i: int|
                                0 <= i < deep(old(self).processed@).len() && deep(
                                    old(self).processed@,
                                )[i] == p;
                            assert(deep(self.processed@)[i] == p);
                        }
                        if p == path@ {
                            assert(deep(self.processed@)[old(self).processed@.len() as int] == p);
                        }
                    }
                }
                match process_file(path, self.www.as_slice(), dest, changed, output_changed) {
                    Ok(action) => Ok(action),
                    Err(NameError::Outside) => Err(WalkError::Outside),
                    Err(NameError::NotText) => Err(WalkError::NotText),
                }
            },
        }
    }

    /// Takes the entries `listed` of the directory that was entered last:
    /// they are entered next, in the order of their bytes, before anything
    /// that was waiting.
    pub fn children(&mut self, listed: Vec<Vec<u8>>)
        ensures
            final(self).source_root() == old(self).source_root(),
            final(self).output_root() == old(self).output_root(),
            final(self).processed() == old(self).processed(),
            final(self).upcoming() == deep(listed@).sort_by(byte_order()) + old(self).upcoming(),
    {
        let mut sorted = sort_paths(listed);
        let ghost all = deep(sorted@);
        let ghost waiting = deep(self.pending@);
        while sorted.len() > 0
            invariant
                self.www == old(self).www,
                self.dist == old(self).dist,
                self.processed == old(self).processed,
                deep(sorted@).len() <= all.len(),
                deep(sorted@) == all.take(deep(sorted@).len() as int),
                deep(self.pending@) == waiting + all.skip(deep(sorted@).len() as int).reverse(),
            decreases sorted.len(),
        {
            let ghost n = deep(sorted@).len() as int;
            let ghost before = deep(self.pending@);
            let ghost left = deep(sorted@);
            let path = sorted.pop().unwrap();
            assert(path@ == left[n - 1]);
            assert(deep(sorted@) =~= all.take(n - 1));
            assert(path@ == all[n - 1]);
            self.pending.push(path);
            assert(deep(self.pending@) =~= before.push(path@));
            assert(deep(self.pending@) =~= waiting + all.skip(n - 1).reverse());
        }
        assert(self.upcoming() =~= all + old(self).upcoming());
    }
}

} // verus!
