use vstd::prelude::*;

use crate::parser::fault::{ParseFault, ParseFaultV};
use crate::parser::identifier::{duplicate_strings, strings_view, Anot, Identifier};
use crate::parser::types::{CustomType, Type};
use crate::text::{
    chars_of, joined, push_joined, push_str, split_on, str_eq, string_from_chars, string_of,
};

verus! {


/// Where a module's file was found: relative to the project's entry point, under the
/// leaf path, or the prelude.
pub enum FileSource {
    Project(Vec<String>),
    Leafpath(Vec<String>),
    Prelude,
}

/// The model of a [`FileSource`].
pub enum FileSourceV {
    Project(Seq<Seq<char>>),
    Leafpath(Seq<Seq<char>>),
    Prelude,
}

impl View for FileSource {
    type V = FileSourceV;

    open spec fn view(&self) -> FileSourceV {
        match self {
            FileSource::Project(l) => FileSourceV::Project(strings_view(l@)),
            FileSource::Leafpath(l) => FileSourceV::Leafpath(strings_view(l@)),
            FileSource::Prelude => FileSourceV::Prelude,
        }
    }
}

/// The places a program is read from, each a path written as its components.
pub struct Environment {
    /// The path of the file the program starts at.
    pub entrypoint: Vec<String>,
    /// The directory of the installed leaf modules.
    pub leafpath: Vec<String>,
}

/// `source` with `next` appended to its levels.
pub open spec fn spec_join(source: FileSourceV, next: Seq<char>) -> FileSourceV {
    match source {
        FileSourceV::Project(l) => FileSourceV::Project(l.push(next)),
        FileSourceV::Leafpath(l) => FileSourceV::Leafpath(l.push(next)),
        FileSourceV::Prelude => FileSourceV::Prelude,
    }
}

/// `source` with the last of its levels removed, and that level.
pub open spec fn spec_pop(source: FileSourceV) -> (FileSourceV, Option<Seq<char>>) {
    match source {
        FileSourceV::Project(l) => if l.len() > 0 {
            (FileSourceV::Project(l.drop_last()), Some(l.last()))
        } else {
            (source, None)
        },
        FileSourceV::Leafpath(l) => if l.len() > 0 {
            (FileSourceV::Leafpath(l.drop_last()), Some(l.last()))
        } else {
            (source, None)
        },
        FileSourceV::Prelude => (source, None),
    }
}

/// The index of the last `.` of `name`, or -1.
pub open spec fn last_dot(name: Seq<char>) -> int
    decreases name.len(),
{
    if name.len() == 0 {
        -1
    } else if name.last() == '.' {
        name.len() - 1
    } else {
        last_dot(name.drop_last())
    }
}

/// A file name with its extension set to `lf`, as `Path::set_extension` does to the
/// name of a file: the part from the last `.` on is replaced, unless that `.` starts
/// the name; a name without `.` gets `.lf` added.
pub open spec fn with_lf_extension(name: Seq<char>) -> Seq<char> {
    let k = last_dot(name);
    if k > 0 {
        name.subrange(0, k) + seq!['.', 'l', 'f']
    } else {
        name + seq!['.', 'l', 'f']
    }
}

/// The root of a path, as a component.
pub open spec fn root_component() -> Seq<char> {
    seq!['/']
}

/// Whether a path component names a file or a directory, rather than being the root,
/// `.` or `..`.
pub open spec fn is_normal_component(c: Seq<char>) -> bool {
    c != root_component() && c != seq!['.'] && c != seq!['.', '.']
}

/// The components after `comps` when a path text goes on with `piece`, as
/// `Path::components` reads a path: empty pieces vanish, and `.` is kept only at the
/// very start of a path.
pub open spec fn push_piece(comps: Seq<Seq<char>>, piece: Seq<char>) -> Seq<Seq<char>> {
    if piece.len() == 0 || (piece == seq!['.'] && comps.len() > 0) {
        comps
    } else {
        comps.push(piece)
    }
}

pub open spec fn push_pieces(comps: Seq<Seq<char>>, pieces: Seq<Seq<char>>) -> Seq<Seq<char>>
    decreases pieces.len(),
{
    if pieces.len() == 0 {
        comps
    } else {
        push_piece(push_pieces(comps, pieces.drop_last()), pieces.last())
    }
}

/// The components of the path `base` joined with the path text `s`, as `Path::join`
/// gives them: a text that starts with `/` replaces `base`.
pub open spec fn spec_join_text(base: Seq<Seq<char>>, s: Seq<char>) -> Seq<Seq<char>> {
    if s.len() > 0 && s[0] == '/' {
        push_pieces(seq![root_component()], split_on(s, '/'))
    } else {
        push_pieces(base, split_on(s, '/'))
    }
}

/// A path with its extension set to `lf`, as `Path::set_extension` does: the last
/// component is changed where it names a file, and the path is left as it is where it
/// ends in the root, `.` or `..`, or is empty.
pub open spec fn spec_set_extension(path: Seq<Seq<char>>) -> Seq<Seq<char>> {
    if path.len() > 0 && is_normal_component(path.last()) {
        path.update(path.len() - 1, with_lf_extension(path.last()))
    } else {
        path
    }
}

/// The name of the directory of the installed modules under the leaf path.
pub open spec fn modules_dir() -> Seq<char> {
    seq!['m', 'o', 'd', 'u', 'l', 'e', 's']
}

/// The file a module source stands for, as path components: its levels joined by `/`
/// onto the directory of the entry point, or onto `modules` under the leaf path, with
/// the extension set to `lf`.
pub open spec fn spec_module_file(
    source: FileSourceV,
    entrypoint: Seq<Seq<char>>,
    leafpath: Seq<Seq<char>>,
) -> Seq<Seq<char>> {
    match source {
        FileSourceV::Project(l) => spec_set_extension(
            spec_join_text(entrypoint.drop_last(), joined(l, "/"@)),
        ),
        FileSourceV::Leafpath(l) => spec_set_extension(
            spec_join_text(leafpath.push(modules_dir()), joined(l, "/"@)),
        ),
        FileSourceV::Prelude => Seq::empty(),
    }
}

/// The two files where the module imported as `path:name` may be: under the directory
/// of the entry point and under `modules` in the leaf path, each reached by joining
/// the text `path/name.lf` (the levels of `path` separated by `/`).
pub open spec fn spec_candidate_files(
    path: Seq<Seq<char>>,
    name: Seq<char>,
    entrypoint: Seq<Seq<char>>,
    leafpath: Seq<Seq<char>>,
) -> (Seq<Seq<char>>, Seq<Seq<char>>) {
    let postfix = joined(path, "/"@) + "/"@ + name + ".lf"@;
    (
        spec_join_text(entrypoint.drop_last(), postfix),
        spec_join_text(leafpath.push(modules_dir()), postfix),
    )
}

/// Whether the environment's entry point has a parent directory.
pub open spec fn has_parent(entrypoint: Seq<Seq<char>>) -> bool {
    entrypoint.len() > 0 && entrypoint.last() != root_component()
}

/// Where an imported module is, given whether its file exists under the project and
/// under the leaf path: the project wins.
pub open spec fn spec_locate(path: Seq<Seq<char>>, name: Seq<char>, in_project: bool) -> FileSourceV {
    if in_project {
        FileSourceV::Project(path.push(name))
    } else {
        FileSourceV::Leafpath(path.push(name))
    }
}

/// The source of a module imported as `path:name` from the module at `source`: resolved
/// from scratch from the entry point, else next to `source`.
pub open spec fn spec_fork_from(
    source: FileSourceV,
    path: Seq<Seq<char>>,
    name: Seq<char>,
    in_project: bool,
) -> FileSourceV {
    if source matches FileSourceV::Project(l) && l.len() == 1 {
        spec_locate(path, name, in_project)
    } else {
        match spec_pop(source).0 {
            FileSourceV::Project(l) => FileSourceV::Project(l + path),
            FileSourceV::Leafpath(l) => FileSourceV::Leafpath(l + path),
            FileSourceV::Prelude => FileSourceV::Prelude,
        }
    }
}

/// How a source is shown: `project:` or `leaf:` and its levels separated by `:`, or
/// `prelude`.
pub open spec fn spec_source_text(source: FileSourceV) -> Seq<char> {
    match source {
        FileSourceV::Project(l) => "project:"@ + joined(l, ":"@),
        FileSourceV::Leafpath(l) => "leaf:"@ + joined(l, ":"@),
        FileSourceV::Prelude => "prelude"@,
    }
}

fn set_lf_extension(name: &String) -> (r: String)
    ensures
        r@ == with_lf_extension(name@),
{
    let cs = chars_of(name.as_str());
    let mut i = cs.len();
    assert(cs@.take(cs@.len() as int) =~= cs@);
    while i > 0 && cs[i - 1] != '.'
        invariant
            i <= cs@.len(),
            last_dot(cs@) == last_dot(cs@.take(i as int)),
        decreases i,
    {
        assert(cs@.take(i as int).drop_last() =~= cs@.take(i - 1));
        i = i - 1;
    }
    if i == 0 {
        assert(cs@.take(0) =~= Seq::<char>::empty());
    } else {
        assert(cs@.take(i as int).last() == '.');
    }
    assert(cs@.take(cs@.len() as int) =~= cs@);
    let stem_end = if i > 1 {
        i - 1
    } else {
        cs.len()
    };
    let mut r = string_from_chars(&cs, 0, stem_end);
    let ext = chars_of(".lf");
    let ext_text = string_from_chars(&ext, 0, ext.len());
    r.append(ext_text.as_str());
    proof {
        reveal_strlit(".lf");
        assert(ext@.subrange(0, 3) =~= seq!['.', 'l', 'f']);
        if i > 1 {
            assert(last_dot(cs@) == i - 1);
        } else if i == 1 {
            assert(last_dot(cs@) == 0);
            assert(cs@.subrange(0, cs@.len() as int) =~= cs@);
        } else {
            assert(cs@.subrange(0, cs@.len() as int) =~= cs@);
        }
    }
    r
}


/// Whether the characters `cs` are exactly `c`.
fn is_single(cs: &Vec<char>, c: char) -> (r: bool)
    ensures
        r == (cs@ == seq![c]),
{
    if cs.len() == 1 && cs[0] == c {
        assert(cs@ =~= seq![c]);
        true
    } else {
        false
    }
}

fn is_normal_exec(name: &String) -> (r: bool)
    ensures
        r == is_normal_component(name@),
{
    let cs = chars_of(name.as_str());
    let dotdot = cs.len() == 2 && cs[0] == '.' && cs[1] == '.';
    if dotdot {
        assert(cs@ =~= seq!['.', '.']);
    } else {
        assert(cs@ != seq!['.', '.']) by {
            if cs@ == seq!['.', '.'] {
                assert(cs@.len() == 2 && cs@[0] == '.' && cs@[1] == '.');
            }
        }
    }
    !is_single(&cs, '/') && !is_single(&cs, '.') && !dotdot
}

/// Adds `piece` of a path text to the components `comps`.
fn push_piece_exec(comps: &mut Vec<String>, piece: &Vec<char>)
    ensures
        strings_view(final(comps)@) == push_piece(strings_view(old(comps)@), piece@),
{
    if piece.len() == 0 {
        assert(piece@ =~= Seq::<char>::empty());
        return;
    }
    if is_single(piece, '.') && comps.len() > 0 {
        return;
    }
    let ghost before = comps@;
    let text = string_from_chars(piece, 0, piece.len());
    assert(piece@.subrange(0, piece@.len() as int) =~= piece@);
    comps.push(text);
    assert(strings_view(comps@) =~= strings_view(before).push(piece@));
}

/// The components of `base` joined with the path text `s`.
fn join_text(base: &Vec<String>, s: &Vec<char>) -> (r: Vec<String>)
    ensures
        strings_view(r@) == spec_join_text(strings_view(base@), s@),
{
    let absolute = s.len() > 0 && s[0] == '/';
    let mut comps: Vec<String> = if absolute {
        let mut root: Vec<String> = Vec::new();
        root.push(string_of("/"));
        proof {
            reveal_strlit("/");
            assert("/"@ =~= root_component());
        }
        assert(strings_view(root@) =~= seq![root_component()]);
        root
    } else {
        duplicate_strings(base)
    };
    let ghost init = strings_view(comps@);
    let ghost mut done: Seq<Seq<char>> = Seq::empty();
    let mut current: Vec<char> = Vec::new();
    let mut i: usize = 0;
    assert(s@.take(0) =~= Seq::<char>::empty());
    assert(split_on(s@.take(0), '/') =~= done.push(current@));
    while i < s.len()
        invariant
            i <= s@.len(),
            split_on(s@.take(i as int), '/') == done.push(current@),
            strings_view(comps@) == push_pieces(init, done),
        decreases s@.len() - i,
    {
        assert(s@.take(i + 1).drop_last() =~= s@.take(i as int));
        if s[i] == '/' {
            push_piece_exec(&mut comps, &current);
            proof {
                assert(done.push(current@).drop_last() =~= done);
                done = done.push(current@);
            }
            current = Vec::new();
            assert(split_on(s@.take(i + 1), '/') =~= done.push(current@));
        } else {
            current.push(s[i]);
            assert(split_on(s@.take(i + 1), '/') =~= done.push(current@));
        }
        i = i + 1;
    }
    assert(s@.take(i as int) =~= s@);
    push_piece_exec(&mut comps, &current);
    assert(done.push(current@).drop_last() =~= done);
    comps
}

/// Sets the extension of the path `path` to `lf`.
fn set_extension(path: &mut Vec<String>)
    ensures
        strings_view(final(path)@) == spec_set_extension(strings_view(old(path)@)),
{
    let n = path.len();
    if n > 0 && is_normal_exec(&path[n - 1]) {
        let ghost before = path@;
        let last = set_lf_extension(&path[n - 1]);
        path.set(n - 1, last);
        assert(strings_view(path@) =~= strings_view(before).update(
            n - 1,
            with_lf_extension(before[n - 1]@),
        ));
    }
}

/// The directory of the entry point, as path components.
fn entry_dir(env: &Environment) -> (r: Vec<String>)
    requires
        env.entrypoint@.len() > 0,
    ensures
        strings_view(r@) == strings_view(env.entrypoint@).drop_last(),
{
    let mut dir: Vec<String> = Vec::new();
    let n = env.entrypoint.len();
    let mut i: usize = 0;
    while i < n - 1
        invariant
            n == env.entrypoint@.len(),
            n > 0,
            i <= n - 1,
            dir@ =~= env.entrypoint@.take(i as int),
        decreases n - 1 - i,
    {
        dir.push(env.entrypoint[i].clone());
        i = i + 1;
        assert(dir@ =~= env.entrypoint@.take(i as int));
    }
    assert(strings_view(dir@) =~= strings_view(env.entrypoint@).drop_last());
    dir
}

/// The `modules` directory under the leaf path, as path components.
fn modules_path(env: &Environment) -> (r: Vec<String>)
    ensures
        strings_view(r@) == strings_view(env.leafpath@).push(modules_dir()),
{
    let mut dir = duplicate_strings(&env.leafpath);
    let ghost before = dir@;
    let m = string_of("modules");
    proof {
        reveal_strlit("modules");
        assert("modules"@ =~= modules_dir());
    }
    dir.push(m);
    assert(strings_view(dir@) =~= strings_view(before).push(modules_dir()));
    dir
}

/// The files where the module imported as `path:name` may be: under the directory of
/// the entry point, and under `modules` in the leaf path.
pub fn candidate_files(path: &Vec<String>, name: &String, env: &Environment) -> (r: (
    Vec<String>,
    Vec<String>,
))
    requires
        has_parent(strings_view(env.entrypoint@)),
    ensures
        (strings_view(r.0@), strings_view(r.1@)) == spec_candidate_files(
            strings_view(path@),
            name@,
            strings_view(env.entrypoint@),
            strings_view(env.leafpath@),
        ),
{
    let mut postfix: Vec<char> = Vec::new();
    push_joined(&mut postfix, path, "/");
    push_str(&mut postfix, "/");
    push_str(&mut postfix, name.as_str());
    push_str(&mut postfix, ".lf");
    assert(path@.map_values(|s: String| s@) =~= strings_view(path@));
    let in_project = join_text(&entry_dir(env), &postfix);
    let in_leafpath = join_text(&modules_path(env), &postfix);
    (in_project, in_leafpath)
}

impl FileSource {
    /// A copy of this source.
    pub fn duplicate(&self) -> (r: FileSource)
        ensures
            r@ == self@,
    {
        match self {
            FileSource::Project(l) => FileSource::Project(duplicate_strings(l)),
            FileSource::Leafpath(l) => FileSource::Leafpath(duplicate_strings(l)),
            FileSource::Prelude => FileSource::Prelude,
        }
    }

    /// This source as text, as it is shown to the user.
    pub fn to_text(&self) -> (r: String)
        ensures
            r@ == spec_source_text(self@),
    {
        let mut out: Vec<char> = Vec::new();
        match self {
            FileSource::Project(levels) => {
                push_str(&mut out, "project:");
                push_joined(&mut out, levels, ":");
            },
            FileSource::Leafpath(levels) => {
                push_str(&mut out, "leaf:");
                push_joined(&mut out, levels, ":");
            },
            FileSource::Prelude => {
                push_str(&mut out, "prelude");
            },
        }
        assert(out@.subrange(0, out@.len() as int) =~= out@);
        string_from_chars(&out, 0, out.len())
    }

    /// This source one level deeper, at `next`.
    pub fn join(self, next: String) -> (r: Self)
        requires
            !(self is Prelude),
        ensures
            r@ == spec_join(self@, next@),
    {
        match self {
            FileSource::Project(levels) => {
                let mut levels = levels;
                let ghost old_l = levels@;
                levels.push(next);
                assert(strings_view(levels@) =~= strings_view(old_l).push(next@));
                FileSource::Project(levels)
            },
            FileSource::Leafpath(levels) => {
                let mut levels = levels;
                let ghost old_l = levels@;
                levels.push(next);
                assert(strings_view(levels@) =~= strings_view(old_l).push(next@));
                FileSource::Leafpath(levels)
            },
            FileSource::Prelude => FileSource::Prelude,
        }
    }

    /// Removes and gives the last level of this source.
    pub fn pop(&mut self) -> (r: Option<String>)
        requires
            !(*old(self) is Prelude),
        ensures
            (final(self)@, match r {
                Some(s) => Some(s@),
                None => None,
            }) == spec_pop(old(self)@),
    {
        match self {
            FileSource::Project(levels) => {
                let ghost old_l = levels@;
                let r = levels.pop();
                proof {
                    if old_l.len() > 0 {
                        assert(strings_view(levels@) =~= strings_view(old_l).drop_last());
                    }
                }
                r
            },
            FileSource::Leafpath(levels) => {
                let ghost old_l = levels@;
                let r = levels.pop();
                proof {
                    if old_l.len() > 0 {
                        assert(strings_view(levels@) =~= strings_view(old_l).drop_last());
                    }
                }
                r
            },
            FileSource::Prelude => None,
        }
    }

    /// The file of this module, as path components.
    pub fn to_pathbuf(&self, env: &Environment) -> (r: Vec<String>)
        requires
            !(self is Prelude),
            self is Project ==> has_parent(strings_view(env.entrypoint@)),
        ensures
            strings_view(r@) == spec_module_file(
                self@,
                strings_view(env.entrypoint@),
                strings_view(env.leafpath@),
            ),
    {
        let (base, levels) = match self {
            FileSource::Project(levels) => (entry_dir(env), levels),
            FileSource::Leafpath(levels) => (modules_path(env), levels),
            FileSource::Prelude => {
                return Vec::new();
            },
        };
        let mut text: Vec<char> = Vec::new();
        push_joined(&mut text, levels, "/");
        assert(levels@.map_values(|s: String| s@) =~= strings_view(levels@));
        let mut path = join_text(&base, &text);
        set_extension(&mut path);
        path
    }

    /// Whether this is the entry point of a project: a project file at its top level.
    pub fn is_entrypoint(&self) -> (r: bool)
        ensures
            r == (self@ matches FileSourceV::Project(l) && l.len() == 1),
    {
        match self {
            FileSource::Project(path) => path.len() == 1,
            _ => false,
        }
    }

    /// Where the module imported as `path:name` is, given whether its file exists under
    /// the project and under the leaf path; the file must exist in one of them.
    pub fn locate(path: &Vec<String>, name: &String, in_project: bool, in_leafpath: bool) -> (r: FileSource)
        requires
            in_project || in_leafpath,
        ensures
            r@ == spec_locate(strings_view(path@), name@, in_project),
    {
        let mut buf = duplicate_strings(path);
        let ghost old_b = buf@;
        buf.push(name.clone());
        assert(strings_view(buf@) =~= strings_view(old_b).push(name@));
        if in_project {
            FileSource::Project(buf)
        } else {
            FileSource::Leafpath(buf)
        }
    }

    /// The source of the module imported as `ident` from this module. From the entry
    /// point it is looked up afresh (`in_project` and `in_leafpath` tell where its file
    /// exists); from elsewhere it sits next to this module.
    pub fn fork_from(&self, ident: Anot<Identifier, Type>, in_project: bool, in_leafpath: bool) -> (r: Self)
        requires
            !(self is Prelude),
            (self@ matches FileSourceV::Project(l) && l.len() == 1) ==> in_project || in_leafpath,
        ensures
            r@ == spec_fork_from(self@, ident.inner@.path, ident.inner@.name, in_project),
    {
        if self.is_entrypoint() {
            FileSource::locate(&ident.inner.path, &ident.inner.name, in_project, in_leafpath)
        } else {
            let mut new_module_path = self.duplicate();
            let _ = new_module_path.pop();
            let ghost popped = new_module_path@;
            let Anot { inner, anot: _ } = ident;
            let levels = inner.path;
            let mut i: usize = 0;
            while i < levels.len()
                invariant
                    i <= levels@.len(),
                    !(new_module_path is Prelude),
                    new_module_path@ == match popped {
                        FileSourceV::Project(l) => FileSourceV::Project(
                            l + strings_view(levels@).take(i as int),
                        ),
                        FileSourceV::Leafpath(l) => FileSourceV::Leafpath(
                            l + strings_view(levels@).take(i as int),
                        ),
                        FileSourceV::Prelude => FileSourceV::Prelude,
                    },
                decreases levels@.len() - i,
            {
                let ghost before = new_module_path@;
                new_module_path = new_module_path.join(levels[i].clone());
                proof {
                    assert(strings_view(levels@).take(i + 1) =~= strings_view(levels@).take(
                        i as int,
                    ).push(levels@[i as int]@));
                    match popped {
                        FileSourceV::Project(l) => {
                            assert(l + strings_view(levels@).take(i + 1) =~= (l + strings_view(
                                levels@,
                            ).take(i as int)).push(levels@[i as int]@));
                        },
                        FileSourceV::Leafpath(l) => {
                            assert(l + strings_view(levels@).take(i + 1) =~= (l + strings_view(
                                levels@,
                            ).take(i as int)).push(levels@[i as int]@));
                        },
                        FileSourceV::Prelude => {},
                    }
                }
                i = i + 1;
            }
            assert(strings_view(levels@).take(levels@.len() as int) =~= strings_view(levels@));
            new_module_path
        }
    }
}

/// One source file of the language: its functions, types and imports.
pub struct ParseModule {
    /// For each function name, the parameter types of each of its overloads with the
    /// index of that overload.
    pub function_ids: Vec<(String, Vec<(Vec<Type>, usize)>)>,
    pub type_ids: Vec<(String, usize)>,
    pub types: Vec<CustomType>,
    /// Each imported module's name with its index.
    pub imports: Vec<(String, usize)>,
    pub file_source: FileSource,
}

/// The index of the first import named `name`, if any.
pub open spec fn spec_lookup(imports: Seq<(String, usize)>, name: Seq<char>) -> Option<usize>
    decreases imports.len(),
{
    if imports.len() == 0 {
        None
    } else if imports[0].0@ == name {
        Some(imports[0].1)
    } else {
        spec_lookup(imports.drop_first(), name)
    }
}

/// Whether no name occurs twice among `entries`.
pub open spec fn distinct_names<V>(entries: Seq<(String, V)>) -> bool {
    forall|i: int, j: int| 0 <= i < j < entries.len() ==> entries[i].0@ != entries[j].0@
}

impl ParseModule {
    /// Each function, type and import name is recorded once.
    pub open spec fn wf(&self) -> bool {
        &&& distinct_names(self.function_ids@)
        &&& distinct_names(self.type_ids@)
        &&& distinct_names(self.imports@)
    }

    /// An empty module at `file_source`.
    pub fn new(file_source: FileSource) -> (r: Self)
        ensures
            r.wf(),
            r.function_ids@.len() == 0,
            r.type_ids@.len() == 0,
            r.types@.len() == 0,
            r.imports@.len() == 0,
            r.file_source == file_source,
    {
        ParseModule {
            function_ids: Vec::new(),
            type_ids: Vec::new(),
            types: Vec::new(),
            imports: Vec::new(),
            file_source,
        }
    }

    /// The index of the imported module `name`.
    pub fn get_import(&self, name: &str) -> (r: Result<usize, ParseFault>)
        ensures
            match spec_lookup(self.imports@, name@) {
                Some(fid) => r == Ok::<usize, ParseFault>(fid),
                None => r matches Err(e) && e@ == ParseFaultV::ModuleNotImported(name@),
            },
    {
        let mut i: usize = 0;
        assert(self.imports@.skip(0) =~= self.imports@);
        while i < self.imports.len()
            invariant
                i <= self.imports@.len(),
                spec_lookup(self.imports@, name@) == spec_lookup(self.imports@.skip(i as int), name@),
            decreases self.imports@.len() - i,
        {
            assert(self.imports@.skip(i as int).drop_first() =~= self.imports@.skip(i + 1));
            if str_eq(self.imports[i].0.as_str(), name) {
                return Ok(self.imports[i].1);
            }
            i = i + 1;
        }
        let text = chars_of(name);
        let owned = string_from_chars(&text, 0, text.len());
        assert(text@.subrange(0, text@.len() as int) =~= text@);
        Err(ParseFault::ModuleNotImported(owned))
    }
}

/// Popping a source right after joining a level to it gives that level back and
/// leaves the source as it was.
pub proof fn law_pop_undoes_join(source: FileSourceV, next: Seq<char>)
    requires
        !(source is Prelude),
    ensures
        spec_pop(spec_join(source, next)) == (source, Some(next)),
{
    match source {
        FileSourceV::Project(l) => {
            assert(l.push(next).drop_last() =~= l);
        },
        FileSourceV::Leafpath(l) => {
            assert(l.push(next).drop_last() =~= l);
        },
        FileSourceV::Prelude => {},
    }
}

} // verus!
