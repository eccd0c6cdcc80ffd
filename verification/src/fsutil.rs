//! Paths as the file system has them: raw bytes, components parted by `/`.

use vstd::prelude::*;
use vstd::utf8::{decode_utf8, valid_utf8};
use crate::order::deep;

verus! {

/// The byte that parts the components of a path.
pub const SEPARATOR: u8 = 47;

/// The byte that parts a file name from its extension.
pub const DOT: u8 = 46;

/// The byte that a hidden file's name starts with.
pub const HIDDEN_PREFIX: u8 = 95;

/// The extension of a template's source, `j2`.
pub open spec fn template_ext() -> Seq<u8> {
    seq![106u8, 50u8]
}

/// The extension of a stylesheet's source, `scss`.
pub open spec fn stylesheet_ext() -> Seq<u8> {
    seq![115u8, 99u8, 115u8, 115u8]
}

/// The extension of a compiled stylesheet, `css`.
pub open spec fn css_ext() -> Seq<u8> {
    seq![99u8, 115u8, 115u8]
}

/// The extension of a build script, `lua`.
pub open spec fn script_ext() -> Seq<u8> {
    seq![108u8, 117u8, 97u8]
}

/// The extension of a script for the browser, `js`.
pub open spec fn js_ext() -> Seq<u8> {
    seq![106u8, 115u8]
}

/// The extension of a page, `html`.
pub open spec fn html_ext() -> Seq<u8> {
    seq![104u8, 116u8, 109u8, 108u8]
}

/// The component that stands for the directory it is met in, `.`.
pub open spec fn current_dir() -> Seq<u8> {
    seq![DOT]
}

/// The component that stands for the directory above, `..`.
pub open spec fn parent_dir() -> Seq<u8> {
    seq![DOT, DOT]
}

/// Whether `path` starts at the root of the file system.
pub open spec fn is_absolute(path: Seq<u8>) -> bool {
    path.len() > 0 && path[0] == SEPARATOR
}

/// The greatest index at which `byte` stands in `s`, or -1 where it stands nowhere.
pub open spec fn last_index_of(s: Seq<u8>, byte: u8) -> int
    decreases s.len(),
{
    if s.len() == 0 {
        -1
    } else if s.last() == byte {
        s.len() - 1
    } else {
        last_index_of(s.drop_last(), byte)
    }
}

/// `last_index_of` is in range, points at `byte`, and no `byte` follows it.
pub proof fn lemma_last_index_of(s: Seq<u8>, byte: u8)
    ensures
        -1 <= last_index_of(s, byte) < s.len(),
        last_index_of(s, byte) >= 0 ==> s[last_index_of(s, byte)] == byte,
        forall|j: int| last_index_of(s, byte) < j < s.len() ==> s[j] != byte,
    decreases s.len(),
{
    if s.len() > 0 && s.last() != byte {
        lemma_last_index_of(s.drop_last(), byte);
        assert forall|j: int| last_index_of(s, byte) < j < s.len() implies s[j] != byte by {
            if j < s.len() - 1 {
                assert(s.drop_last()[j] == s[j]);
            }
        }
    }
}

/// Any index that points at `byte` with no `byte` behind it, or -1 where `s`
/// holds none, is `last_index_of`.
pub proof fn lemma_last_index_of_unique(s: Seq<u8>, byte: u8, i: int)
    requires
        -1 <= i < s.len(),
        i >= 0 ==> s[i] == byte,
        forall|j: int| i < j < s.len() ==> s[j] != byte,
    ensures
        last_index_of(s, byte) == i,
{
    lemma_last_index_of(s, byte);
}

/// Where the first separator of `path` stands, or the length of `path`
/// where it has none.
pub open spec fn first_separator(path: Seq<u8>) -> int
    decreases path.len(),
{
    if path.len() == 0 || path[0] == SEPARATOR {
        0
    } else {
        1 + first_separator(path.drop_first())
    }
}

/// `first_separator` is in range, no separator stands before it, and one
/// stands at it unless it is the length.
pub proof fn lemma_first_separator(path: Seq<u8>)
    ensures
        0 <= first_separator(path) <= path.len(),
        forall|k: int| 0 <= k < first_separator(path) ==> path[k] != SEPARATOR,
        first_separator(path) < path.len() ==> path[first_separator(path)] == SEPARATOR,
    decreases path.len(),
{
    if path.len() > 0 && path[0] != SEPARATOR {
        let rest = path.drop_first();
        lemma_first_separator(rest);
        assert forall|k: int| 0 <= k < first_separator(path) implies path[k] != SEPARATOR by {
            if k > 0 {
                assert(rest[k - 1] == path[k]);
            }
        }
        if first_separator(path) < path.len() {
            assert(rest[first_separator(rest)] == path[first_separator(path)]);
        }
    }
}

/// An index with no separator before it, at which one stands unless it is
/// the length, is `first_separator`.
pub proof fn lemma_first_separator_unique(path: Seq<u8>, n: int)
    requires
        0 <= n <= path.len(),
        forall|k: int| 0 <= k < n ==> path[k] != SEPARATOR,
        n < path.len() ==> path[n] == SEPARATOR,
    ensures
        first_separator(path) == n,
{
    lemma_first_separator(path);
}

/// Whether a piece between two separators counts as a component: an empty
/// piece and `.` do not.
pub open spec fn is_component(piece: Seq<u8>) -> bool {
    piece.len() > 0 && piece != current_dir()
}

/// The components of `path`: the pieces between its separators, without
/// the empty ones and without `.`, in their order.
pub open spec fn components(path: Seq<u8>) -> Seq<Seq<u8>>
    decreases path.len(),
{
    if path.len() == 0 {
        Seq::empty()
    } else {
        let n = first_separator(path);
        let head = path.subrange(0, n);
        let tail = if 0 <= n && n < path.len() {
            components(path.subrange(n + 1, path.len() as int))
        } else {
            Seq::empty()
        };
        if is_component(head) {
            seq![head] + tail
        } else {
            tail
        }
    }
}

/// Every component is a piece that counts, and holds no separator at its
/// start.
pub proof fn lemma_components(path: Seq<u8>)
    ensures
        forall|i: int|
            0 <= i < components(path).len() ==> is_component(#[trigger] components(path)[i])
                && components(path)[i][0] != SEPARATOR,
    decreases path.len(),
{
    if path.len() > 0 {
        lemma_first_separator(path);
        let n = first_separator(path);
        let head = path.subrange(0, n);
        let tail = if n < path.len() {
            components(path.subrange(n + 1, path.len() as int))
        } else {
            Seq::empty()
        };
        if n < path.len() {
            lemma_components(path.subrange(n + 1, path.len() as int));
        }
        assert forall|i: int| 0 <= i < components(path).len() implies is_component(
            #[trigger] components(path)[i],
        ) && components(path)[i][0] != SEPARATOR by {
            if is_component(head) {
                assert(head[0] == path[0]);
                if i > 0 {
                    assert(components(path)[i] == tail[i - 1]);
                } else {
                    assert(components(path)[0] == head);
                }
            } else {
                assert(components(path)[i] == tail[i]);
            }
        }
    }
}

/// The components of two paths with a separator between them are those of
/// the first, then those of the second.
pub proof fn lemma_components_concat(a: Seq<u8>, b: Seq<u8>)
    ensures
        components(a + seq![SEPARATOR] + b) == components(a) + components(b),
    decreases a.len(),
{
    let whole = a + seq![SEPARATOR] + b;
    lemma_first_separator(a);
    let n = first_separator(a);
    assert forall|k: int| 0 <= k < n implies whole[k] != SEPARATOR by {
        assert(whole[k] == a[k]);
    }
    if n < a.len() {
        assert(whole[n] == a[n]);
    }
    lemma_first_separator_unique(whole, n);
    assert(whole.subrange(0, n) =~= a.subrange(0, n));
    if n < a.len() {
        let rest = a.subrange(n + 1, a.len() as int);
        assert(whole.subrange(n + 1, whole.len() as int) =~= rest + seq![SEPARATOR] + b);
        lemma_components_concat(rest, b);
        assert(components(whole) =~= components(a) + components(b));
    } else {
        assert(whole.subrange(n + 1, whole.len() as int) =~= b);
        assert(a.subrange(0, n) =~= a);
        assert(components(whole) =~= components(a) + components(b));
    }
}

/// The components put together, with one separator between each two.
pub open spec fn joined_all(comps: Seq<Seq<u8>>) -> Seq<u8>
    decreases comps.len(),
{
    if comps.len() == 0 {
        Seq::empty()
    } else if comps.len() == 1 {
        comps[0]
    } else {
        joined_all(comps.drop_last()) + seq![SEPARATOR] + comps.last()
    }
}

/// The path of the components `comps`, from the root where `absolute`.
pub open spec fn assembled(absolute: bool, comps: Seq<Seq<u8>>) -> Seq<u8> {
    if absolute {
        seq![SEPARATOR] + joined_all(comps)
    } else {
        joined_all(comps)
    }
}

/// Components that start with no separator, put together, start with none.
pub proof fn lemma_joined_all_is_relative(comps: Seq<Seq<u8>>)
    requires
        forall|i: int| 0 <= i < comps.len() ==> comps[i].len() > 0 && comps[i][0] != SEPARATOR,
    ensures
        !is_absolute(joined_all(comps)),
    decreases comps.len(),
{
    if comps.len() > 1 {
        let front = comps.drop_last();
        assert forall|i: int| 0 <= i < front.len() implies front[i].len() > 0 && front[i][0]
            != SEPARATOR by {
            assert(front[i] == comps[i]);
        }
        lemma_joined_all_is_relative(front);
        assert(front[0] == comps[0]);
        if front.len() == 1 {
            assert(joined_all(front) == comps[0]);
        }
        assert(joined_all(front).len() > 0) by {
            if front.len() > 1 {
                assert(joined_all(front).len() >= 1);
            }
        }
        assert(joined_all(comps)[0] == joined_all(front)[0]);
    }
}

/// Whether a component names something below the directory it is met in:
/// `.`, `..` and an empty one do not.
pub open spec fn is_name(comp: Seq<u8>) -> bool {
    comp.len() > 0 && comp != current_dir() && comp != parent_dir()
}

/// The components of `comps` that name something below, in their order.
pub open spec fn names_only(comps: Seq<Seq<u8>>) -> Seq<Seq<u8>>
    decreases comps.len(),
{
    if comps.len() == 0 {
        comps
    } else if is_name(comps.last()) {
        names_only(comps.drop_last()).push(comps.last())
    } else {
        names_only(comps.drop_last())
    }
}

/// What `names_only` keeps are names, and components of what it was given.
pub proof fn lemma_names_only(comps: Seq<Seq<u8>>)
    ensures
        forall|i: int|
            0 <= i < names_only(comps).len() ==> is_name(#[trigger] names_only(comps)[i])
                && comps.contains(names_only(comps)[i]),
    decreases comps.len(),
{
    if comps.len() > 0 {
        let front = names_only(comps.drop_last());
        lemma_names_only(comps.drop_last());
        assert forall|i: int| 0 <= i < names_only(comps).len() implies is_name(
            #[trigger] names_only(comps)[i],
        ) && comps.contains(names_only(comps)[i]) by {
            if i < front.len() {
                assert(names_only(comps)[i] == front[i]);
                let k = choose|k: int|
                    0 <= k < comps.drop_last().len() && comps.drop_last()[k] == front[i];
                assert(comps[k] == front[i]);
            } else {
                assert(comps[comps.len() - 1] == names_only(comps)[i]);
            }
        }
    }
}

/// The file name of `path`: its last component, unless that is `..`. A
/// path without components, as the empty one and the root, has none.
pub open spec fn file_name(path: Seq<u8>) -> Option<Seq<u8>> {
    if components(path).len() > 0 && components(path).last() != parent_dir() {
        Some(components(path).last())
    } else {
        None
    }
}

/// The extension of the file name `name`: what follows its last dot. A
/// name without a dot, or whose only dot opens it, has none.
pub open spec fn extension_of(name: Seq<u8>) -> Option<Seq<u8>> {
    let dot = last_index_of(name, DOT);
    if dot > 0 {
        Some(name.subrange(dot + 1, name.len() as int))
    } else {
        None
    }
}

/// The file name `name` without its extension and the dot before it.
pub open spec fn stem_of(name: Seq<u8>) -> Seq<u8> {
    let dot = last_index_of(name, DOT);
    if dot > 0 {
        name.subrange(0, dot)
    } else {
        name
    }
}

/// The extension of `path`: that of its file name.
pub open spec fn extension(path: Seq<u8>) -> Option<Seq<u8>> {
    match file_name(path) {
        Some(name) => extension_of(name),
        None => None,
    }
}

/// `path` with `ext` in place of the extension of its file name; a path
/// without a file name stays as it is.
pub open spec fn with_extension(path: Seq<u8>, ext: Seq<u8>) -> Seq<u8> {
    match file_name(path) {
        Some(name) => assembled(
            is_absolute(path),
            components(path).drop_last().push(stem_of(name) + seq![DOT] + ext),
        ),
        None => path,
    }
}

/// Whether `path` names a hidden file: its file name is text and starts
/// with the hidden prefix. A hidden directory above the file does not count.
pub open spec fn is_hidden(path: Seq<u8>) -> bool {
    match file_name(path) {
        Some(name) => name.len() > 0 && name[0] == HIDDEN_PREFIX && valid_utf8(name),
        None => false,
    }
}

/// The directory that holds `path`: the path of its components but the
/// last. A path without components, as the empty one and the root, has
/// none.
pub open spec fn parent(path: Seq<u8>) -> Option<Seq<u8>> {
    if components(path).len() > 0 {
        Some(assembled(is_absolute(path), components(path).drop_last()))
    } else {
        None
    }
}

/// Finds the last `byte` of `s`.
pub fn find_last(s: &[u8], byte: u8) -> (r: Option<usize>)
    ensures
        match r {
            Some(i) => last_index_of(s@, byte) == i && i < s.len(),
            None => last_index_of(s@, byte) == -1,
        },
{
    let mut i: usize = s.len();
    while i > 0
        invariant
            i <= s.len(),
            forall|j: int| i <= j < s.len() ==> s@[j] != byte,
        decreases i,
    {
        i -= 1;
        if s[i] == byte {
            proof {
                lemma_last_index_of_unique(s@, byte, i as int);
            }
            return Some(i);
        }
    }
    proof {
        lemma_last_index_of_unique(s@, byte, -1);
    }
    None
}

/// Whether `path` starts at the root of the file system.
pub fn starts_at_root(path: &[u8]) -> (r: bool)
    ensures
        r == is_absolute(path@),
{
    path.len() > 0 && path[0] == SEPARATOR
}

/// The components of `path`.
pub fn split(path: &[u8]) -> (r: Vec<Vec<u8>>)
    ensures
        deep(r@) == components(path@),
{
    let mut out: Vec<Vec<u8>> = Vec::new();
    let mut start: usize = 0;
    assert(path@.skip(0) =~= path@);
    assert(deep(out@) + components(path@.skip(0)) =~= components(path@));
    while start < path.len()
        invariant
            start <= path.len(),
            components(path@) == deep(out@) + components(path@.skip(start as int)),
        decreases path.len() - start,
    {
        let mut end: usize = start;
        while end < path.len() && path[end] != SEPARATOR
            invariant
                start <= end <= path.len(),
                forall|k: int| start <= k < end ==> path@[k] != SEPARATOR,
            decreases path.len() - end,
        {
            end += 1;
        }
        let ghost rest = path@.skip(start as int);
        let ghost before = deep(out@);
        proof {
            assert forall|k: int| 0 <= k < end - start implies rest[k] != SEPARATOR by {
                assert(rest[k] == path@[start + k]);
            }
            if end < path.len() {
                assert(rest[end - start] == path@[end as int]);
            }
            lemma_first_separator_unique(rest, end - start);
        }
        let piece = vstd::slice::slice_subrange(path, start, end);
        assert(piece@ =~= rest.subrange(0, end - start));
        let counts = piece.len() > 0 && !(piece.len() == 1 && piece[0] == DOT);
        assert(counts == is_component(piece@)) by {
            if piece.len() == 1 && piece[0] == DOT {
                assert(piece@ =~= current_dir());
            }
            if piece@ == current_dir() {
                assert(piece@.len() == 1 && piece@[0] == DOT);
            }
        }
        if counts {
            out.push(vstd::slice::slice_to_vec(piece));
            assert(deep(out@) =~= before + seq![piece@]);
        }
        if end < path.len() {
            assert(rest.subrange(end - start + 1, rest.len() as int) =~= path@.skip(end + 1));
            start = end + 1;
        } else {
            assert(path@.skip(end as int).len() == 0);
            start = end;
        }
        assert(components(path@) =~= deep(out@) + components(path@.skip(start as int)));
    }
    assert(path@.skip(start as int).len() == 0);
    assert(deep(out@) + Seq::<Seq<u8>>::empty() =~= deep(out@));
    out
}

/// Puts the components `comps` together to a path, from the root where
/// `absolute`.
pub fn assemble(absolute: bool, comps: &Vec<Vec<u8>>) -> (r: Vec<u8>)
    ensures
        r@ == assembled(absolute, deep(comps@)),
{
    let ghost all = deep(comps@);
    let mut body: Vec<u8> = Vec::new();
    let mut i: usize = 0;
    assert(all.take(0) =~= Seq::<Seq<u8>>::empty());
    while i < comps.len()
        invariant
            i <= comps.len(),
            all == deep(comps@),
            body@ == joined_all(all.take(i as int)),
        decreases comps.len() - i,
    {
        let ghost so_far = body@;
        assert(all.take(i + 1).drop_last() =~= all.take(i as int));
        assert(all.take(i + 1).last() == comps@[i as int]@);
        if i > 0 {
            body.push(SEPARATOR);
        }
        body.extend_from_slice(comps[i].as_slice());
        assert(body@ =~= joined_all(all.take(i + 1))) by {
            if i == 0 {
                assert(all.take(1)[0] == comps@[0]@);
                assert(body@ =~= so_far + comps@[i as int]@);
            } else {
                assert(body@ =~= so_far + seq![SEPARATOR] + comps@[i as int]@);
            }
        }
        i += 1;
    }
    assert(all.take(comps.len() as int) =~= all);
    if absolute {
        let mut out: Vec<u8> = Vec::new();
        out.push(SEPARATOR);
        out.extend_from_slice(body.as_slice());
        assert(out@ =~= seq![SEPARATOR] + body@);
        out
    } else {
        body
    }
}

/// The components of `comps` that name something below, in their order.
pub fn only_names(comps: &Vec<Vec<u8>>) -> (r: Vec<Vec<u8>>)
    ensures
        deep(r@) == names_only(deep(comps@)),
{
    let ghost all = deep(comps@);
    let mut kept: Vec<Vec<u8>> = Vec::new();
    let mut i: usize = 0;
    assert(all.take(0) =~= Seq::<Seq<u8>>::empty());
    assert(deep(kept@) =~= names_only(all.take(0)));
    while i < comps.len()
        invariant
            i <= comps.len(),
            all == deep(comps@),
            deep(kept@) == names_only(all.take(i as int)),
        decreases comps.len() - i,
    {
        let ghost before = deep(kept@);
        assert(all.take(i + 1).drop_last() =~= all.take(i as int));
        assert(all.take(i + 1).last() == comps@[i as int]@);
        let comp = &comps[i];
        if comp.len() > 0 && !is_current_dir(comp.as_slice()) && !is_parent_dir(comp.as_slice()) {
            kept.push(comp.clone());
            assert(deep(kept@) =~= before.push(comps@[i as int]@));
        }
        i += 1;
    }
    assert(all.take(comps.len() as int) =~= all);
    kept
}

/// The file name of `path`, if it has one.
pub fn file_name_of(path: &[u8]) -> (r: Option<Vec<u8>>)
    ensures
        match r {
            Some(name) => file_name(path@) == Some(name@),
            None => file_name(path@) is None,
        },
{
    let mut comps = split(path);
    let ghost all = deep(comps@);
    match comps.pop() {
        Some(last) => {
            assert(last@ == all.last());
            if is_parent_dir(last.as_slice()) {
                None
            } else {
                Some(last)
            }
        },
        None => None,
    }
}

/// Whether `comp` is the component `..`.
pub fn is_parent_dir(comp: &[u8]) -> (r: bool)
    ensures
        r == (comp@ == parent_dir()),
{
    let r = comp.len() == 2 && comp[0] == DOT && comp[1] == DOT;
    assert(r == (comp@ == parent_dir())) by {
        if r {
            assert(comp@ =~= parent_dir());
        }
        if comp@ == parent_dir() {
            assert(comp@.len() == 2 && comp@[0] == DOT && comp@[1] == DOT);
        }
    }
    r
}

/// Whether `comp` is the component `.`.
pub fn is_current_dir(comp: &[u8]) -> (r: bool)
    ensures
        r == (comp@ == current_dir()),
{
    let r = comp.len() == 1 && comp[0] == DOT;
    assert(r == (comp@ == current_dir())) by {
        if r {
            assert(comp@ =~= current_dir());
        }
        if comp@ == current_dir() {
            assert(comp@.len() == 1 && comp@[0] == DOT);
        }
    }
    r
}

/// Cuts the extension and the dot before it off the file name `name`.
pub fn cut_extension(name: &mut Vec<u8>)
    ensures
        final(name)@ == stem_of(old(name)@),
{
    proof {
        lemma_last_index_of(name@, DOT);
    }
    match find_last(name.as_slice(), DOT) {
        Some(dot) => {
            if dot > 0 {
                name.truncate(dot);
                assert(name@ =~= stem_of(old(name)@));
            }
        },
        None => {},
    }
}

/// The extension of `path`, if it has one.
pub fn extension_of_path(path: &[u8]) -> (r: Option<Vec<u8>>)
    ensures
        match r {
            Some(ext) => extension(path@) == Some(ext@),
            None => extension(path@) is None,
        },
{
    match file_name_of(path) {
        Some(name) => {
            proof {
                lemma_last_index_of(name@, DOT);
            }
            match find_last(name.as_slice(), DOT) {
                Some(dot) => {
                    if dot > 0 {
                        Some(
                            vstd::slice::slice_to_vec(
                                vstd::slice::slice_subrange(name.as_slice(), dot + 1, name.len()),
                            ),
                        )
                    } else {
                        None
                    }
                },
                None => None,
            }
        },
        None => None,
    }
}

/// Whether the extension of `path` is `wanted`.
pub fn has_extension(path: &[u8], wanted: &[u8]) -> (r: bool)
    ensures
        r == (extension(path@) == Some(wanted@)),
{
    match extension_of_path(path) {
        Some(found) => bytes_eq(found.as_slice(), wanted),
        None => false,
    }
}

/// `path` with `ext` in place of the extension of its file name.
pub fn replace_extension(path: &[u8], ext: &[u8]) -> (r: Vec<u8>)
    ensures
        r@ == with_extension(path@, ext@),
{
    let mut comps = split(path);
    let ghost all = deep(comps@);
    match comps.pop() {
        Some(last) => {
            assert(last@ == all.last());
            assert(deep(comps@) =~= all.drop_last());
            if is_parent_dir(last.as_slice()) {
                vstd::slice::slice_to_vec(path)
            } else {
                let mut name = last;
                cut_extension(&mut name);
                name.push(DOT);
                name.extend_from_slice(ext);
                assert(name@ =~= stem_of(last@) + seq![DOT] + ext@);
                let ghost front = deep(comps@);
                comps.push(name);
                assert(deep(comps@) =~= front.push(name@));
                assemble(starts_at_root(path), &comps)
            }
        },
        None => vstd::slice::slice_to_vec(path),
    }
}

/// Whether the file that `path` names is hidden: kept out of the output
/// tree as a file of its own, and there for other files to draw on.
pub fn is_underscored(path: &[u8]) -> (r: bool)
    ensures
        r == is_hidden(path@),
{
    match file_name_of(path) {
        Some(name) => name.len() > 0 && name[0] == HIDDEN_PREFIX && is_text(name.as_slice()),
        None => false,
    }
}

/// The directory that holds `path`, if it has one.
pub fn parent_of(path: &[u8]) -> (r: Option<Vec<u8>>)
    ensures
        match r {
            Some(dir) => parent(path@) == Some(dir@),
            None => parent(path@) is None,
        },
{
    let mut comps = split(path);
    let ghost all = deep(comps@);
    match comps.pop() {
        Some(_last) => {
            assert(deep(comps@) =~= all.drop_last());
            Some(assemble(starts_at_root(path), &comps))
        },
        None => None,
    }
}

/// std's `String::from_utf8`: the text that `bytes` encode, where they are
/// valid UTF-8, and nothing where they are not.
#[verifier::external_body]
pub(crate) fn text_of(bytes: Vec<u8>) -> (r: Option<String>)
    ensures
        r is Some <==> valid_utf8(bytes@),
        r matches Some(text) ==> text@ == decode_utf8(bytes@),
{
    match String::from_utf8(bytes) {
        Ok(text) => Some(text),
        Err(_) => None,
    }
}

/// std's `str::from_utf8`: whether `bytes` are valid UTF-8.
#[verifier::external_body]
pub(crate) fn is_text(bytes: &[u8]) -> (r: bool)
    ensures
        r == valid_utf8(bytes@),
{
    match std::str::from_utf8(bytes) {
        Ok(_) => true,
        Err(_) => false,
    }
}

/// Whether two byte strings are the same.
pub fn bytes_eq(a: &[u8], b: &[u8]) -> (r: bool)
    ensures
        r == (a@ == b@),
{
    if a.len() != b.len() {
        return false;
    }
    let mut i: usize = 0;
    while i < a.len()
        invariant
            i <= a.len() == b.len(),
            forall|j: int| 0 <= j < i ==> a@[j] == b@[j],
        decreases a.len() - i,
    {
        if a[i] != b[i] {
            return false;
        }
        i += 1;
    }
    assert(a@ =~= b@);
    true
}

} // verus!
