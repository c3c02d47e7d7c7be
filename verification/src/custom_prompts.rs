//! Prompt documents: which files of a directory are prompts, what becomes
//! of them once they are read, and how the prompts of the project and the
//! personal ones are merged.
//!
//! The file system is asked from outside. A directory listing comes in, the
//! files to read go out; what was read comes in, the prompts go out.

use crate::agent::{slice_text_of, text_of};
use crate::layers::{
    defs_of, first_def, keeps_ties, lemma_first_def_at, lemma_first_def_found,
    lemma_sorted_distinct, lists, names_of, ordered, rearranged, sort_by_name, sorted_from,
    strictly_ordered, values_of, Layered,
};
use crate::paths::{join_path, joined};
use crate::text::{
    ascii_lowered, from_chars, lemma_trailing_unique, other_than, same_text, to_ascii_lower,
    to_chars, trailing,
};
use vstd::prelude::*;

verus! {

/// A prompt document.
#[derive(Debug, Clone, PartialEq, Eq)]
pub struct CustomPrompt {
    /// The name of the file without its extension.
    pub name: String,
    /// The path of the file.
    pub path: String,
    /// The text of the file.
    pub content: String,
}

/// A prompt document as plain values.
pub struct CustomPromptView {
    pub name: Seq<char>,
    pub path: Seq<char>,
    pub content: Seq<char>,
}

impl View for CustomPrompt {
    type V = CustomPromptView;

    open spec fn view(&self) -> CustomPromptView {
        CustomPromptView { name: self.name@, path: self.path@, content: self.content@ }
    }
}

/// One entry of a directory listing.
#[derive(Debug, Clone, PartialEq, Eq)]
pub struct DirEntry {
    /// The name of the entry within its directory.
    pub file_name: String,
    /// The path of the entry.
    pub path: String,
    /// Whether the entry is a regular file.
    pub is_file: bool,
}

/// A directory entry as plain values.
pub struct DirEntryView {
    pub file_name: Seq<char>,
    pub path: Seq<char>,
    pub is_file: bool,
}

impl View for DirEntry {
    type V = DirEntryView;

    open spec fn view(&self) -> DirEntryView {
        DirEntryView { file_name: self.file_name@, path: self.path@, is_file: self.is_file }
    }
}

/// A file that is to be read as a prompt document.
#[derive(Debug, Clone, PartialEq, Eq)]
pub struct PromptFile {
    /// The name that the prompt will go by.
    pub name: String,
    /// The path of the file.
    pub path: String,
}

/// A `PromptFile` as plain values.
pub struct PromptFileView {
    pub name: Seq<char>,
    pub path: Seq<char>,
}

impl View for PromptFile {
    type V = PromptFileView;

    open spec fn view(&self) -> PromptFileView {
        PromptFileView { name: self.name@, path: self.path@ }
    }
}

// ---------------------------------------------------------------------
// File names
// ---------------------------------------------------------------------

/// Whether a file name has an extension: it holds a full stop that is not
/// its first character, and it is not the name `..`.
pub open spec fn has_extension(name: Seq<char>) -> bool {
    let tail = trailing(name, other_than('.'));
    tail + 1 < name.len() && name != seq!['.', '.']
}

/// The extension of a file name: what follows its last full stop.
pub open spec fn extension_of(name: Seq<char>) -> Option<Seq<char>> {
    if has_extension(name) {
        Some(name.skip(name.len() - trailing(name, other_than('.'))))
    } else {
        None
    }
}

/// The stem of a file name: what stands before its last full stop, and the
/// whole name where it has no extension.
pub open spec fn stem_of(name: Seq<char>) -> Seq<char> {
    if has_extension(name) {
        name.take(name.len() - trailing(name, other_than('.')) - 1)
    } else {
        name
    }
}

/// Whether the entry is a prompt document: a regular file whose extension
/// is `md` in any mix of upper and lower case.
pub open spec fn is_prompt_document(entry: DirEntryView) -> bool {
    entry.is_file && (extension_of(entry.file_name) matches Some(ext) && ascii_lowered(ext)
        == "md"@)
}

/// The names that a list of strings holds.
pub open spec fn name_set(names: Seq<String>) -> Set<Seq<char>> {
    Set::new(|n: Seq<char>| exists|i: int| 0 <= i < names.len() && (#[trigger] names[i])@ == n)
}

/// Whether the entry is to be read: it is a prompt document whose stem is
/// not excluded.
pub open spec fn is_wanted(entry: DirEntryView, exclude: Set<Seq<char>>) -> bool {
    is_prompt_document(entry) && !exclude.contains(stem_of(entry.file_name))
}

/// The files to read of a listing, in the order of the listing.
pub open spec fn selected(entries: Seq<DirEntryView>, exclude: Set<Seq<char>>) -> Seq<
    PromptFileView,
>
    decreases entries.len(),
{
    if entries.len() == 0 {
        Seq::empty()
    } else {
        let entry = entries.last();
        let front = selected(entries.drop_last(), exclude);
        if is_wanted(entry, exclude) {
            front.push(PromptFileView { name: stem_of(entry.file_name), path: entry.path })
        } else {
            front
        }
    }
}

/// The prompts that came of the files that could be read, in the order of
/// the files. A file without text is passed over.
pub open spec fn readable(read: Seq<(PromptFileView, Option<Seq<char>>)>) -> Seq<
    CustomPromptView,
>
    decreases read.len(),
{
    if read.len() == 0 {
        Seq::empty()
    } else {
        let front = readable(read.drop_last());
        match read.last().1 {
            Some(text) => front.push(
                CustomPromptView {
                    name: read.last().0.name,
                    path: read.last().0.path,
                    content: text,
                },
            ),
            None => front,
        }
    }
}

/// The views of a list of directory entries.
pub open spec fn entry_views(entries: Seq<DirEntry>) -> Seq<DirEntryView> {
    Seq::new(entries.len(), |i: int| entries[i]@)
}

/// The views of a list of files to read.
pub open spec fn file_views(files: Seq<PromptFile>) -> Seq<PromptFileView> {
    Seq::new(files.len(), |i: int| files[i]@)
}

/// The views of a list of files with what was read of each.
pub open spec fn read_views(read: Seq<(PromptFile, Option<String>)>) -> Seq<
    (PromptFileView, Option<Seq<char>>),
> {
    Seq::new(read.len(), |i: int| (read[i].0@, text_of(read[i].1)))
}

/// The views of a list of prompts.
pub open spec fn prompt_views(prompts: Seq<CustomPrompt>) -> Seq<CustomPromptView> {
    Seq::new(prompts.len(), |i: int| prompts[i]@)
}

/// The names of a list of prompts, in order.
pub open spec fn prompt_names(prompts: Seq<CustomPromptView>) -> Seq<Seq<char>> {
    Seq::new(prompts.len(), |i: int| prompts[i].name)
}

/// A list of prompts as definitions, each under its own name.
pub open spec fn prompt_defs(prompts: Seq<CustomPromptView>) -> Seq<
    (Seq<char>, CustomPromptView),
> {
    Seq::new(prompts.len(), |i: int| (prompts[i].name, prompts[i]))
}

/// The last definition of `name` in `defs`, if there is one.
pub open spec fn last_def<V>(defs: Seq<(Seq<char>, V)>, name: Seq<char>) -> Option<V>
    decreases defs.len(),
{
    if defs.len() == 0 {
        None
    } else if defs.last().0 == name {
        Some(defs.last().1)
    } else {
        last_def(defs.drop_last(), name)
    }
}

/// The prompt that `name` resolves to over the prompts of the project and
/// the personal ones: the project's where it has one of that name, the
/// later one where it has several; else the first personal one.
pub open spec fn merged(
    project: Seq<CustomPromptView>,
    personal: Seq<CustomPromptView>,
    name: Seq<char>,
) -> Option<CustomPromptView> {
    match last_def(prompt_defs(project), name) {
        Some(p) => Some(p),
        None => first_def(prompt_defs(personal), name),
    }
}

/// Whether `out` is `input` sorted by name: the same prompts, in dictionary
/// order of their names, those of one name in the order in which they
/// stood.
pub open spec fn sorted_prompts(
    out: Seq<CustomPromptView>,
    input: Seq<CustomPromptView>,
    perm: Seq<int>,
) -> bool {
    &&& rearranged(out, input, perm)
    &&& keeps_ties(prompt_names(input), perm)
    &&& ordered(prompt_names(out))
}

/// A prompt found under a name goes by that name.
pub proof fn lemma_defs_go_by_name(prompts: Seq<CustomPromptView>, name: Seq<char>)
    ensures
        first_def(prompt_defs(prompts), name) matches Some(p) ==> p.name == name,
        last_def(prompt_defs(prompts), name) matches Some(p) ==> p.name == name,
    decreases prompts.len(),
{
    let defs = prompt_defs(prompts);
    lemma_first_def_found(defs, name);
    if prompts.len() > 0 {
        assert(prompt_defs(prompts.drop_last()) =~= defs.drop_last());
        lemma_defs_go_by_name(prompts.drop_last(), name);
    }
}

/// Precedence: a name that the project defines resolves to a prompt of
/// the project, whatever the personal prompts hold: to the project's last
/// prompt of that name.
pub proof fn lemma_project_prompt_wins(
    project: Seq<CustomPromptView>,
    personal: Seq<CustomPromptView>,
    i: int,
)
    requires
        0 <= i < project.len(),
        forall|j: int| i < j < project.len() ==> (#[trigger] project[j]).name != project[i].name,
    ensures
        merged(project, personal, project[i].name) == Some(project[i]),
    decreases project.len(),
{
    let defs = prompt_defs(project);
    let name = project[i].name;
    if i == project.len() - 1 {
        assert(defs.last() == (name, project[i]));
    } else {
        let front = project.drop_last();
        assert(prompt_defs(front) =~= defs.drop_last());
        assert(project[project.len() - 1].name != name);
        assert(front[i] == project[i]);
        assert forall|j: int| i < j < front.len() implies (#[trigger] front[j]).name
            != front[i].name by {
            assert(front[j] == project[j]);
        }
        lemma_project_prompt_wins(front, personal, i);
    }
}

/// Union: a personal prompt under a name that the project does not define
/// resolves, the first one where the personal prompts hold several.
pub proof fn lemma_personal_prompt_fills_gap(
    project: Seq<CustomPromptView>,
    personal: Seq<CustomPromptView>,
    name: Seq<char>,
)
    requires
        forall|j: int| 0 <= j < project.len() ==> (#[trigger] project[j]).name != name,
    ensures
        merged(project, personal, name) == first_def(prompt_defs(personal), name),
    decreases project.len(),
{
    if project.len() > 0 {
        let front = project.drop_last();
        assert(prompt_defs(front) =~= prompt_defs(project).drop_last());
        assert(project[project.len() - 1].name != name);
        assert forall|j: int| 0 <= j < front.len() implies (#[trigger] front[j]).name != name by {
            assert(front[j] == project[j]);
        }
        lemma_personal_prompt_fills_gap(front, personal, name);
    }
}

// ---------------------------------------------------------------------
// Executable functions
// ---------------------------------------------------------------------

/// The stem and the extension of a file name.
pub fn split_file_name(name: &str) -> (r: (String, Option<String>))
    ensures
        r.0@ == stem_of(name@),
        text_of(r.1) == extension_of(name@),
{
    let chars = to_chars(name);
    let n = chars.len();
    let mut tail: usize = 0;
    while tail < n && chars[n - tail - 1] != '.'
        invariant
            n == chars.len(),
            tail <= n,
            forall|i: int| n - tail <= i < n ==> other_than('.')(#[trigger] chars@[i]),
        decreases n - tail,
    {
        tail += 1;
    }
    proof {
        lemma_trailing_unique(chars@, other_than('.'), tail as int);
    }
    let is_dots = n == 2 && chars[0] == '.' && chars[1] == '.';
    proof {
        if is_dots {
            assert(chars@ =~= seq!['.', '.']);
        } else if n == 2 {
            assert(chars@[0] != seq!['.', '.'][0] || chars@[1] != seq!['.', '.'][1]);
        }
    }
    if tail < n && n - tail > 1 && !is_dots {
        let stem = from_chars(&chars, 0, n - tail - 1);
        let ext = from_chars(&chars, n - tail, n);
        assert(chars@.subrange(0, n - tail - 1) =~= chars@.take(n - tail - 1));
        assert(chars@.subrange(n - tail, n as int) =~= chars@.skip(n - tail));
        (stem, Some(ext))
    } else {
        assert(chars@.subrange(0, n as int) =~= chars@);
        (from_chars(&chars, 0, n), None)
    }
}

/// Whether `names` holds `name`.
pub fn holds_name(names: &Vec<String>, name: &str) -> (r: bool)
    ensures
        r == name_set(names@).contains(name@),
{
    let mut i: usize = 0;
    while i < names.len()
        invariant
            i <= names.len(),
            forall|j: int| 0 <= j < i ==> (#[trigger] names@[j])@ != name@,
        decreases names.len() - i,
    {
        if same_text(names[i].as_str(), name) {
            return true;
        }
        i += 1;
    }
    false
}

/// The files of a directory listing that are to be read as prompts, in the
/// order of the listing: the regular files with the extension `md`, in any
/// mix of upper and lower case, whose stem is not in `exclude`. Each goes
/// by its stem.
pub fn select_prompt_files(entries: Vec<DirEntry>, exclude: &Vec<String>) -> (out: Vec<PromptFile>)
    ensures
        file_views(out@) == selected(entry_views(entries@), name_set(exclude@)),
{
    let mut out: Vec<PromptFile> = Vec::new();
    let ghost all = entries@;
    let ghost ex = name_set(exclude@);
    assert(entry_views(all.take(0)) =~= Seq::<DirEntryView>::empty());
    assert(file_views(out@) =~= Seq::<PromptFileView>::empty());
    let it = entries.into_iter();
    for entry in iter: it
        invariant
            iter.seq() == all,
            ex == name_set(exclude@),
            file_views(out@) == selected(entry_views(all.take(iter.index())), ex),
    {
        let ghost i = iter.index();
        let ghost done = entry_views(all.take(i));
        let ghost next = entry_views(all.take(i + 1));
        let ghost held = out@;
        proof {
            assert(next.drop_last() =~= done);
            assert(next.last() == entry@);
        }
        if entry.is_file {
            let parts = split_file_name(entry.file_name.as_str());
            let is_md = match &parts.1 {
                Some(ext) => same_text(to_ascii_lower(ext.as_str()).as_str(), "md"),
                None => false,
            };
            if is_md && !holds_name(exclude, parts.0.as_str()) {
                out.push(PromptFile { name: parts.0, path: entry.path });
                assert(file_views(out@) =~= file_views(held).push(
                    PromptFileView { name: stem_of(entry@.file_name), path: entry@.path },
                ));
            }
        }
    }
    assert(all.take(all.len() as int) =~= all);
    out
}

/// The prompts of one directory, sorted by name. `read` holds each file
/// that was selected with the text that reading it gave, and with nothing
/// where it could not be read as text: such a file is passed over.
pub fn collect_prompts(read: Vec<(PromptFile, Option<String>)>) -> (out: Vec<CustomPrompt>)
    ensures
        exists|perm: Seq<int>|
            sorted_prompts(prompt_views(out@), readable(read_views(read@)), perm),
{
    let mut pairs: Vec<(String, CustomPrompt)> = Vec::new();
    let ghost all = read@;
    assert(read_views(all.take(0)) =~= Seq::<(PromptFileView, Option<Seq<char>>)>::empty());
    let it = read.into_iter();
    for item in iter: it
        invariant
            iter.seq() == all,
            pairs.len() == readable(read_views(all.take(iter.index()))).len(),
            forall|k: int|
                0 <= k < pairs.len() ==> (#[trigger] pairs@[k]).1@ == readable(
                    read_views(all.take(iter.index())),
                )[k] && pairs@[k].0@ == pairs@[k].1@.name,
    {
        let ghost i = iter.index();
        proof {
            assert(read_views(all.take(i + 1)).drop_last() =~= read_views(all.take(i)));
            assert(read_views(all.take(i + 1)).last() == (item.0@, text_of(item.1)));
        }
        match item.1 {
            Some(text) => {
                let key = item.0.name.clone();
                pairs.push(
                    (key, CustomPrompt { name: item.0.name, path: item.0.path, content: text }),
                );
            },
            None => {},
        }
    }
    assert(all.take(all.len() as int) =~= all);
    let ghost input = readable(read_views(all));
    let ghost unsorted = pairs@;
    let sorted = sort_by_name(pairs);
    let ghost perm = choose|perm: Seq<int>| sorted_from(sorted@, unsorted, perm);
    let out = values_of(sorted);
    proof {
        let views = prompt_views(out@);
        assert forall|k: int| 0 <= k < views.len() implies views[k] == input[#[trigger] perm[k]] by {
            assert(sorted@[k] == unsorted[perm[k]]);
        }
        assert forall|a: int, b: int|
            0 <= a < b < perm.len() && prompt_names(input)[perm[a]] == prompt_names(
                input,
            )[perm[b]] implies perm[a] < perm[b] by {
            assert(names_of(unsorted)[perm[a]] == unsorted[perm[a]].0@);
            assert(names_of(unsorted)[perm[b]] == unsorted[perm[b]].0@);
        }
        assert forall|a: int, b: int| 0 <= a < b < views.len() implies !crate::text::before(
            prompt_names(views)[b],
            prompt_names(views)[a],
        ) by {
            assert(sorted@[a] == unsorted[perm[a]]);
            assert(sorted@[b] == unsorted[perm[b]]);
            assert(names_of(sorted@)[a] == prompt_names(views)[a]);
            assert(names_of(sorted@)[b] == prompt_names(views)[b]);
        }
        assert(sorted_prompts(views, input, perm));
    }
    out
}

/// The prompts of the project and the personal prompts as one list, sorted
/// by name, each name once. A prompt of the project wins over a personal
/// prompt of the same name; a personal prompt is taken only for a name that
/// the project does not define.
pub fn merge_prompts(project: Vec<CustomPrompt>, personal: Vec<CustomPrompt>) -> (out: Vec<
    CustomPrompt,
>)
    ensures
        strictly_ordered(prompt_names(prompt_views(out@))),
        forall|k: int|
            0 <= k < out.len() ==> merged(
                prompt_views(project@),
                prompt_views(personal@),
                (#[trigger] out@[k])@.name,
            ) == Some(out@[k]@),
        forall|name: Seq<char>|
            merged(prompt_views(project@), prompt_views(personal@), name) is Some ==> exists|
                k: int,
            |
                0 <= k < out.len() && (#[trigger] out@[k])@.name == name,
{
    let ghost upper = prompt_views(project@);
    let ghost lower = prompt_views(personal@);
    let mut by_name: Layered<CustomPrompt> = Layered::new();
    let ghost all = project@;
    assert(prompt_defs(prompt_views(all.take(0))) =~= Seq::<
        (Seq<char>, CustomPromptView),
    >::empty());
    let it = project.into_iter();
    for p in iter: it
        invariant
            iter.seq() == all,
            by_name.wf(),
            forall|k: Seq<char>| #[trigger]
                by_name.lookup(k) == last_def(
                    prompt_defs(prompt_views(all.take(iter.index()))),
                    k,
                ),
    {
        let ghost i = iter.index();
        let ghost held = by_name;
        proof {
            let next = prompt_defs(prompt_views(all.take(i + 1)));
            assert(next.drop_last() =~= prompt_defs(prompt_views(all.take(i))));
            assert(next.last() == (p@.name, p@));
        }
        let key = p.name.clone();
        by_name.set(key, p);
        proof {
            assert forall|k: Seq<char>| #[trigger]
                by_name.lookup(k) == last_def(
                    prompt_defs(prompt_views(all.take(i + 1))),
                    k,
                ) by {
                assert(held.lookup(k) == last_def(prompt_defs(prompt_views(all.take(i))), k));
            }
        }
    }
    assert(all.take(all.len() as int) =~= all);
    let ghost top = by_name;
    let ghost all2 = personal@;
    assert(prompt_defs(prompt_views(all2.take(0))) =~= Seq::<
        (Seq<char>, CustomPromptView),
    >::empty());
    let it2 = personal.into_iter();
    for p in iter: it2
        invariant
            iter.seq() == all2,
            by_name.wf(),
            forall|k: Seq<char>| #[trigger]
                by_name.lookup(k) == match top.lookup(k) {
                    Some(v) => Some(v),
                    None => first_def(prompt_defs(prompt_views(all2.take(iter.index()))), k),
                },
    {
        let ghost i = iter.index();
        let ghost held = by_name;
        let ghost pv = p@;
        let key = p.name.clone();
        by_name.add(key, p);
        proof {
            let done = prompt_defs(prompt_views(all2.take(i)));
            let one = seq![(pv.name, pv)];
            assert(prompt_defs(prompt_views(all2.take(i + 1))) =~= done + one);
            assert forall|k: Seq<char>| #[trigger]
                by_name.lookup(k) == match top.lookup(k) {
                    Some(v) => Some(v),
                    None => first_def(prompt_defs(prompt_views(all2.take(i + 1))), k),
                } by {
                crate::layers::lemma_first_def_layers(done, one, k);
                assert(first_def(one.drop_first(), k) is None);
                assert(held.lookup(k) == match top.lookup(k) {
                    Some(v) => Some(v),
                    None => first_def(done, k),
                });
            }
        }
    }
    assert(all2.take(all2.len() as int) =~= all2);
    proof {
        assert forall|k: Seq<char>| #[trigger] by_name.lookup(k) == merged(upper, lower, k) by {
            assert(top.lookup(k) == last_def(prompt_defs(upper), k));
        }
    }
    let ghost defs = by_name.defs();
    let entries = by_name.into_entries();
    let ghost unsorted = entries@;
    proof {
        assert forall|a: int, b: int| 0 <= a < b < unsorted.len() implies unsorted[a].0@
            != unsorted[b].0@ by {
            assert(defs[a].0 != defs[b].0);
        }
    }
    let sorted = sort_by_name(entries);
    let ghost perm = choose|perm: Seq<int>| sorted_from(sorted@, unsorted, perm);
    proof {
        lemma_sorted_distinct(unsorted, sorted@, perm);
    }
    let out = values_of(sorted);
    proof {
        let views = prompt_views(out@);
        assert forall|k: int| 0 <= k < out.len() implies merged(
            upper,
            lower,
            (#[trigger] out@[k])@.name,
        ) == Some(out@[k]@) && out@[k]@.name == sorted@[k].0@ by {
            let j = perm[k];
            assert(sorted@[k] == unsorted[j]);
            lemma_first_def_at(defs, j);
            assert(by_name.lookup(defs[j].0) == Some(defs[j].1));
            lemma_defs_go_by_name(upper, defs[j].0);
            lemma_defs_go_by_name(lower, defs[j].0);
        }
        assert forall|a: int, b: int| 0 <= a < b < views.len() implies crate::text::before(
            prompt_names(views)[a],
            prompt_names(views)[b],
        ) by {
            assert(out@[a]@.name == sorted@[a].0@);
            assert(out@[b]@.name == sorted@[b].0@);
            assert(names_of(sorted@)[a] == sorted@[a].0@);
            assert(names_of(sorted@)[b] == sorted@[b].0@);
        }
        assert forall|name: Seq<char>| merged(upper, lower, name) is Some implies exists|k: int|
            0 <= k < out.len() && (#[trigger] out@[k])@.name == name by {
            assert(by_name.lookup(name) is Some);
            lemma_first_def_found(defs, name);
            let j = choose|j: int| 0 <= j < defs.len() && (#[trigger] defs[j]).0 == name;
            assert(lists(perm, j));
            let k = choose|k: int| 0 <= k < perm.len() && perm[k] == j;
            assert(sorted@[k] == unsorted[j]);
            assert(out@[k]@.name == sorted@[k].0@);
        }
    }
    out
}

/// The default directory of the personal prompts: `prompts` below the home
/// of the configuration, and none where that home is not known.
pub fn default_prompts_dir(codex_home: Option<&str>) -> (dir: Option<String>)
    ensures
        text_of(dir) == match slice_text_of(codex_home) {
            Some(home) => Some(joined(home, "prompts"@)),
            None => None,
        },
{
    match codex_home {
        Some(home) => Some(join_path(home, "prompts")),
        None => None,
    }
}

/// The directory of the prompts of the project at `root`:
/// `.codex/prompts` below it.
pub fn project_prompts_dir(root: &str) -> (dir: String)
    ensures
        dir@ == joined(joined(root@, ".codex"@), "prompts"@),
{
    let codex = join_path(root, ".codex");
    join_path(codex.as_str(), "prompts")
}

} // verus!
