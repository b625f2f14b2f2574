//! The lists of recordings and of transcripts.
use crate::paths::{
    edited_file_path, edited_of, existing_output_paths_for_media, is_edited, is_edited_output_path,
    media_outputs, original_of, original_output_path_for_any, path_views, same_file, FilePath,
    PathView,
};
use crate::text::lowered;
use vstd::prelude::*;

verus! {

/// A file in a list, and whether it is ticked.
#[derive(Debug, Clone)]
pub struct FileEntry {
    pub path: FilePath,
    pub selected: bool,
}

/// A recording.
pub type MediaEntry = FileEntry;

/// A transcript.
pub type OutputEntry = FileEntry;

/// What an entry of a list holds.
pub struct EntryView {
    pub path: PathView,
    pub selected: bool,
}

impl View for FileEntry {
    type V = EntryView;

    open spec fn view(&self) -> EntryView {
        EntryView { path: self.path@, selected: self.selected }
    }
}

/// The views of a list of entries.
pub open spec fn entry_views(entries: Seq<FileEntry>) -> Seq<EntryView> {
    Seq::new(entries.len(), |i: int| entries[i]@)
}

/// Where a path is in a list; the length of the list where it is not in it.
pub open spec fn entry_pos(entries: Seq<EntryView>, path: PathView) -> nat
    decreases entries.len(),
{
    if entries.len() == 0 || same_file(entries[0].path, path) {
        0
    } else {
        1 + entry_pos(entries.drop_first(), path)
    }
}

/// Whether a path is in a list.
pub open spec fn lists(entries: Seq<EntryView>, path: PathView) -> bool {
    exists|i: int| 0 <= i < entries.len() && same_file((#[trigger] entries[i]).path, path)
}

/// Whether no path is in a list twice.
pub open spec fn distinct_paths(entries: Seq<EntryView>) -> bool {
    forall|i: int, j: int|
        0 <= i < j < entries.len() ==> !same_file(
            (#[trigger] entries[i]).path,
            (#[trigger] entries[j]).path,
        )
}

/// The first place of a path.
pub proof fn lemma_entry_pos(entries: Seq<EntryView>, path: PathView, n: int)
    requires
        0 <= n <= entries.len(),
        forall|k: int| 0 <= k < n ==> !same_file((#[trigger] entries[k]).path, path),
        n < entries.len() ==> same_file(entries[n].path, path),
    ensures
        entry_pos(entries, path) == n,
    decreases entries.len(),
{
    if n > 0 {
        let rest = entries.drop_first();
        assert forall|k: int| 0 <= k < n - 1 implies !same_file(
            (#[trigger] rest[k]).path,
            path,
        ) by {
            assert(rest[k] == entries[k + 1]);
        }
        assert(!same_file(entries[0].path, path));
        lemma_entry_pos(rest, path, n - 1);
    }
}

/// A list is searched to its end exactly where it lacks the path.
pub proof fn lemma_entry_pos_bound(entries: Seq<EntryView>, path: PathView)
    ensures
        entry_pos(entries, path) <= entries.len(),
        (entry_pos(entries, path) < entries.len()) == lists(entries, path),
        entry_pos(entries, path) < entries.len() ==> same_file(
            entries[entry_pos(entries, path) as int].path,
            path,
        ),
    decreases entries.len(),
{
    if entries.len() > 0 && !same_file(entries[0].path, path) {
        let rest = entries.drop_first();
        lemma_entry_pos_bound(rest, path);
        if lists(entries, path) {
            let k = choose|k: int|
                0 <= k < entries.len() && same_file((#[trigger] entries[k]).path, path);
            assert(same_file(rest[k - 1].path, path));
        }
        if lists(rest, path) {
            let k = choose|k: int|
                0 <= k < rest.len() && same_file((#[trigger] rest[k]).path, path);
            assert(same_file(entries[k + 1].path, path));
        }
    }
}

/// A list that holds a path: where it already did, the path is only ticked if that is asked for.
pub open spec fn with_entry(entries: Seq<EntryView>, path: PathView, selected: bool) -> Seq<
    EntryView,
> {
    let at = entry_pos(entries, path) as int;
    if at >= entries.len() {
        entries.push(EntryView { path, selected })
    } else if selected {
        entries.update(at, EntryView { path: entries[at].path, selected: true })
    } else {
        entries
    }
}

/// Adding a path keeps the paths of a list distinct, leaves every other entry as it was, and makes
/// the list hold the path.
pub proof fn lemma_with_entry(entries: Seq<EntryView>, path: PathView, selected: bool)
    requires
        distinct_paths(entries),
    ensures
        distinct_paths(with_entry(entries, path, selected)),
        lists(with_entry(entries, path, selected), path),
        forall|i: int|
            0 <= i < entries.len() && !same_file((#[trigger] entries[i]).path, path) ==> with_entry(
                entries,
                path,
                selected,
            )[i] == entries[i],
{
    lemma_entry_pos_bound(entries, path);
    let after = with_entry(entries, path, selected);
    let at = entry_pos(entries, path) as int;
    if at >= entries.len() {
        assert(same_file(after[entries.len() as int].path, path));
        assert forall|i: int, j: int| 0 <= i < j < after.len() implies !same_file(
            (#[trigger] after[i]).path,
            (#[trigger] after[j]).path,
        ) by {
            assert(after[i] == entries[i]);
            if j < entries.len() {
                assert(after[j] == entries[j]);
            }
        }
    } else {
        assert(same_file(after[at].path, path));
        assert forall|i: int, j: int| 0 <= i < j < after.len() implies !same_file(
            (#[trigger] after[i]).path,
            (#[trigger] after[j]).path,
        ) by {
            assert(after[i].path == entries[i].path && after[j].path == entries[j].path);
        }
    }
}

/// The place of a path in a list.
fn find_entry(entries: &Vec<FileEntry>, path: &FilePath) -> (r: usize)
    ensures
        r == entry_pos(entry_views(entries@), path@),
        r <= entries@.len(),
{
    let ghost all = entry_views(entries@);
    let mut i: usize = 0;
    while i < entries.len()
        invariant
            i <= entries@.len(),
            all == entry_views(entries@),
            forall|k: int| 0 <= k < i ==> !same_file((#[trigger] all[k]).path, path@),
        decreases entries@.len() - i,
    {
        assert(all[i as int] == entries@[i as int]@);
        if entries[i].path.same(path) {
            proof {
                lemma_entry_pos(all, path@, i as int);
            }
            return i;
        }
        i += 1;
    }
    proof {
        lemma_entry_pos(all, path@, i as int);
    }
    i
}

/// Makes a list hold a path; where it already does, ticks it if that is asked for.
pub fn ensure_output_entry(entries: &mut Vec<OutputEntry>, path: FilePath, selected: bool)
    ensures
        entry_views(final(entries)@) == with_entry(entry_views(old(entries)@), path@, selected),
{
    let ghost all = entry_views(entries@);
    let ghost p = path@;
    let at: usize = find_entry(entries, &path);
    proof {
        lemma_entry_pos_bound(all, p);
    }
    if at < entries.len() {
        assert(all[at as int] == entries@[at as int]@);
        if selected {
            let known: FilePath = entries[at].path.copy();
            entries.set(at, FileEntry { path: known, selected: true });
            assert(entry_views(entries@) =~= all.update(
                at as int,
                EntryView { path: all[at as int].path, selected: true },
            ));
        }
        return;
    }
    entries.push(FileEntry { path, selected });
    assert(entry_views(entries@) =~= all.push(EntryView { path: p, selected }));
}

/// Makes the list of recordings hold a path, ticked or not where it is new.
pub open spec fn with_media(entries: Seq<EntryView>, path: PathView, selected: bool) -> Seq<
    EntryView,
> {
    if lists(entries, path) {
        entries
    } else {
        entries.push(EntryView { path, selected })
    }
}

/// Makes the list of recordings hold a path, ticked or not where it is new.
pub fn ensure_media_entry(entries: &mut Vec<MediaEntry>, path: &FilePath, selected: bool)
    ensures
        entry_views(final(entries)@) == with_media(entry_views(old(entries)@), path@, selected),
{
    let ghost all = entry_views(entries@);
    let at: usize = find_entry(entries, path);
    proof {
        lemma_entry_pos_bound(all, path@);
    }
    if at >= entries.len() {
        entries.push(FileEntry { path: path.copy(), selected });
        assert(entry_views(entries@) =~= all.push(EntryView { path: path@, selected }));
    }
}

/// A recording that is added, and which of the two transcripts beside it exist.
pub struct AddedMedia {
    pub path: FilePath,
    pub original_is_file: bool,
    pub edited_is_file: bool,
}

/// The transcripts that come with an added recording.
pub open spec fn outputs_beside(m: AddedMedia) -> Seq<PathView> {
    match media_outputs(m.path@) {
        Some((original, edited)) => (if m.original_is_file {
            seq![original]
        } else {
            Seq::empty()
        }) + (if m.edited_is_file {
            seq![edited]
        } else {
            Seq::empty()
        }),
        None => Seq::empty(),
    }
}

/// A list after paths were added to it, none of them ticked.
pub open spec fn with_entries(entries: Seq<EntryView>, paths: Seq<PathView>) -> Seq<EntryView>
    decreases paths.len(),
{
    if paths.len() == 0 {
        entries
    } else {
        with_entry(with_entries(entries, paths.drop_last()), paths.last(), false)
    }
}

/// Makes a list hold paths, none of them ticked.
fn ensure_output_entries(entries: &mut Vec<OutputEntry>, paths: Vec<FilePath>)
    ensures
        entry_views(final(entries)@) == with_entries(
            entry_views(old(entries)@),
            path_views(paths@),
        ),
{
    let ghost start = entry_views(entries@);
    let ghost all = path_views(paths@);
    let mut i: usize = 0;
    assert(entry_views(entries@) =~= with_entries(start, all.take(0)));
    while i < paths.len()
        invariant
            i <= paths@.len(),
            all == path_views(paths@),
            entry_views(entries@) == with_entries(start, all.take(i as int)),
        decreases paths@.len() - i,
    {
        assert(all.take(i + 1).drop_last() =~= all.take(i as int));
        assert(all.take(i + 1).last() == paths@[i as int]@);
        ensure_output_entry(entries, paths[i].copy(), false);
        i += 1;
    }
    assert(all.take(i as int) =~= all);
}

/// Both lists.
pub struct Lists {
    pub media: Seq<EntryView>,
    pub outputs: Seq<EntryView>,
}

/// The lists after recordings were added, each ticked, with the transcripts beside them.
pub open spec fn with_added_media(before: Lists, added: Seq<AddedMedia>) -> Lists
    decreases added.len(),
{
    if added.len() == 0 {
        before
    } else {
        let l = with_added_media(before, added.drop_last());
        Lists {
            media: with_media(l.media, added.last().path@, true),
            outputs: with_entries(l.outputs, outputs_beside(added.last())),
        }
    }
}

/// Adds recordings, each ticked, with the transcripts beside them; `true` where one of them had a
/// transcript.
pub fn add_media_files(
    media: &mut Vec<MediaEntry>,
    outputs: &mut Vec<OutputEntry>,
    added: &Vec<AddedMedia>,
) -> (r: bool)
    ensures
        (Lists { media: entry_views(final(media)@), outputs: entry_views(final(outputs)@) })
            == with_added_media(
            (Lists { media: entry_views(old(media)@), outputs: entry_views(old(outputs)@) }),
            added@,
        ),
        r == exists|i: int| 0 <= i < added@.len() && outputs_beside(#[trigger] added@[i]).len() > 0,
{
    let ghost start = Lists { media: entry_views(media@), outputs: entry_views(outputs@) };
    let mut found: bool = false;
    let mut i: usize = 0;
    assert(added@.take(0) =~= Seq::<AddedMedia>::empty());
    while i < added.len()
        invariant
            i <= added@.len(),
            (Lists { media: entry_views(media@), outputs: entry_views(outputs@) })
                == with_added_media(start, added@.take(i as int)),
            found == exists|k: int|
                0 <= k < i && outputs_beside(#[trigger] added@[k]).len() > 0,
        decreases added@.len() - i,
    {
        assert(added@.take(i + 1).drop_last() =~= added@.take(i as int));
        assert(added@.take(i + 1).last() == added@[i as int]);
        ensure_media_entry(media, &added[i].path, true);
        let beside: Vec<FilePath> = existing_output_paths_for_media(
            &added[i].path,
            added[i].original_is_file,
            added[i].edited_is_file,
        );
        assert(path_views(beside@) == outputs_beside(added@[i as int]));
        assert(path_views(beside@).len() == beside@.len());
        if beside.len() > 0 {
            found = true;
        }
        ensure_output_entries(outputs, beside);
        i += 1;
    }
    assert(added@.take(i as int) =~= added@);
    found
}

/// A transcript that is added, and whether its counterpart, the edited one or the one that it was
/// edited from, exists.
pub struct AddedOutput {
    pub path: FilePath,
    pub counterpart_exists: bool,
}

/// The edited transcript of an original, and the original of an edited one.
pub open spec fn counterpart_of(p: PathView) -> PathView {
    if is_edited(p) {
        original_of(p)
    } else {
        edited_of(p)
    }
}

/// The edited transcript of an original, and the original of an edited one.
pub fn output_counterpart(path: &FilePath) -> (r: FilePath)
    ensures
        r@ == counterpart_of(path@),
{
    if is_edited_output_path(path) {
        original_output_path_for_any(path)
    } else {
        edited_file_path(path)
    }
}

/// The transcripts after some were added with their counterparts.
pub open spec fn with_added_outputs(before: Seq<EntryView>, added: Seq<AddedOutput>) -> Seq<
    EntryView,
>
    decreases added.len(),
{
    if added.len() == 0 {
        before
    } else {
        let one = with_entry(
            with_added_outputs(before, added.drop_last()),
            added.last().path@,
            false,
        );
        if added.last().counterpart_exists {
            with_entry(one, counterpart_of(added.last().path@), false)
        } else {
            one
        }
    }
}

/// Adds transcripts with their counterparts.
pub fn add_output_files(outputs: &mut Vec<OutputEntry>, added: &Vec<AddedOutput>)
    ensures
        entry_views(final(outputs)@) == with_added_outputs(entry_views(old(outputs)@), added@),
{
    let ghost start = entry_views(outputs@);
    let mut i: usize = 0;
    assert(added@.take(0) =~= Seq::<AddedOutput>::empty());
    while i < added.len()
        invariant
            i <= added@.len(),
            entry_views(outputs@) == with_added_outputs(start, added@.take(i as int)),
        decreases added@.len() - i,
    {
        assert(added@.take(i + 1).drop_last() =~= added@.take(i as int));
        assert(added@.take(i + 1).last() == added@[i as int]);
        ensure_output_entry(outputs, added[i].path.copy(), false);
        if added[i].counterpart_exists {
            ensure_output_entry(outputs, output_counterpart(&added[i].path), false);
        }
        i += 1;
    }
    assert(added@.take(i as int) =~= added@);
}

/// The entries that are not ticked.
pub open spec fn unticked(entries: Seq<EntryView>) -> Seq<EntryView>
    decreases entries.len(),
{
    if entries.len() == 0 {
        Seq::empty()
    } else if entries.last().selected {
        unticked(entries.drop_last())
    } else {
        unticked(entries.drop_last()).push(entries.last())
    }
}

/// Takes the ticked entries out of a list.
pub fn remove_selected(entries: &mut Vec<FileEntry>)
    ensures
        entry_views(final(entries)@) == unticked(entry_views(old(entries)@)),
{
    let ghost all = entry_views(entries@);
    let mut kept: Vec<FileEntry> = Vec::new();
    let mut i: usize = 0;
    assert(entry_views(kept@) =~= unticked(all.take(0)));
    while i < entries.len()
        invariant
            i <= entries@.len(),
            all == entry_views(entries@),
            entry_views(kept@) == unticked(all.take(i as int)),
        decreases entries@.len() - i,
    {
        assert(all.take(i + 1).drop_last() =~= all.take(i as int));
        assert(all.take(i + 1).last() == entries@[i as int]@);
        if !entries[i].selected {
            let ghost before = kept@;
            kept.push(FileEntry { path: entries[i].path.copy(), selected: false });
            assert(entry_views(kept@) =~= entry_views(before).push(entries@[i as int]@));
        }
        i += 1;
    }
    assert(all.take(i as int) =~= all);
    *entries = kept;
}

/// All entries, ticked or not.
pub open spec fn all_ticked(entries: Seq<EntryView>, selected: bool) -> Seq<EntryView> {
    Seq::new(entries.len(), |i: int| EntryView { path: entries[i].path, selected })
}

/// Ticks all entries, or none.
pub fn select_all(entries: &mut Vec<FileEntry>, selected: bool)
    ensures
        entry_views(final(entries)@) == all_ticked(entry_views(old(entries)@), selected),
{
    let ghost start = entries@;
    let mut i: usize = 0;
    while i < entries.len()
        invariant
            i <= entries@.len(),
            entries@.len() == start.len(),
            forall|k: int| 0 <= k < i ==> (#[trigger] entries@[k])@ == (EntryView {
                path: start[k].path@,
                selected,
            }),
            forall|k: int| i <= k < entries@.len() ==> #[trigger] entries@[k] == start[k],
        decreases entries@.len() - i,
    {
        let path: FilePath = entries[i].path.copy();
        entries.set(i, FileEntry { path, selected });
        i += 1;
    }
    assert(entry_views(entries@) =~= all_ticked(entry_views(start), selected));
}

/// Ticks one entry, or takes its tick away; a place beyond the list is passed over.
pub fn select_one(entries: &mut Vec<FileEntry>, index: usize, selected: bool)
    ensures
        entry_views(final(entries)@) == if index < old(entries)@.len() {
            entry_views(old(entries)@).update(
                index as int,
                EntryView { path: old(entries)@[index as int].path@, selected },
            )
        } else {
            entry_views(old(entries)@)
        },
{
    if index < entries.len() {
        let ghost all = entry_views(entries@);
        let ghost p = entries@[index as int].path@;
        let path: FilePath = entries[index].path.copy();
        entries.set(index, FileEntry { path, selected });
        assert(entry_views(entries@) =~= all.update(
            index as int,
            EntryView { path: p, selected },
        ));
    }
}

/// The paths of the ticked entries.
pub open spec fn ticked_paths(entries: Seq<EntryView>) -> Seq<PathView>
    decreases entries.len(),
{
    if entries.len() == 0 {
        Seq::empty()
    } else if entries.last().selected {
        ticked_paths(entries.drop_last()).push(entries.last().path)
    } else {
        ticked_paths(entries.drop_last())
    }
}

/// The paths of the ticked entries.
pub fn selected_media_files(entries: &Vec<MediaEntry>) -> (r: Vec<FilePath>)
    ensures
        path_views(r@) == ticked_paths(entry_views(entries@)),
{
    let ghost all = entry_views(entries@);
    let mut out: Vec<FilePath> = Vec::new();
    let mut i: usize = 0;
    assert(path_views(out@) =~= ticked_paths(all.take(0)));
    while i < entries.len()
        invariant
            i <= entries@.len(),
            all == entry_views(entries@),
            path_views(out@) == ticked_paths(all.take(i as int)),
        decreases entries@.len() - i,
    {
        assert(all.take(i + 1).drop_last() =~= all.take(i as int));
        assert(all.take(i + 1).last() == entries@[i as int]@);
        if entries[i].selected {
            let ghost before = out@;
            out.push(entries[i].path.copy());
            assert(path_views(out@) =~= path_views(before).push(entries@[i as int].path@));
        }
        i += 1;
    }
    assert(all.take(i as int) =~= all);
    out
}

/// Taking the ticked entries out leaves no ticked one, and nothing that was not in the list; after
/// ticking all, nothing is left.
pub proof fn lemma_unticked(entries: Seq<EntryView>)
    ensures
        forall|i: int| 0 <= i < unticked(entries).len() ==> !(#[trigger] unticked(entries)[i]).selected,
        ticked_paths(unticked(entries)).len() == 0,
        unticked(all_ticked(entries, true)).len() == 0,
        unticked(all_ticked(entries, false)) == all_ticked(entries, false),
        ticked_paths(entries).len() + unticked(entries).len() == entries.len(),
    decreases entries.len(),
{
    if entries.len() > 0 {
        let before = entries.drop_last();
        lemma_unticked(before);
        assert(all_ticked(entries, true).drop_last() =~= all_ticked(before, true));
        assert(all_ticked(entries, false).drop_last() =~= all_ticked(before, false));
        assert(all_ticked(entries, false) =~= all_ticked(before, false).push(
            all_ticked(entries, false).last(),
        ));
        if !entries.last().selected {
            assert(unticked(entries).drop_last() =~= unticked(before));
        }
    } else {
        assert(all_ticked(entries, false) =~= Seq::<EntryView>::empty());
    }
}

/// The entries whose file exists, the first of each that differ only in case, and at the end the
/// transcript that is loaded, if it exists and is not among them.
pub open spec fn chat_sources(
    entries: Seq<EntryView>,
    exists_there: Seq<bool>,
    loaded: Option<PathView>,
    loaded_exists: bool,
) -> Seq<PathView> {
    let listed = existing_sources(entries, exists_there);
    match loaded {
        Some(p) if loaded_exists && !has_source(listed, p) => listed.push(p),
        _ => listed,
    }
}

/// Whether a path is among the sources, but for case.
pub open spec fn has_source(sources: Seq<PathView>, path: PathView) -> bool {
    exists|i: int|
        0 <= i < sources.len() && lowered((#[trigger] sources[i]).text()) == lowered(path.text())
}

/// The entries whose file exists, the first of each that differ only in case.
pub open spec fn existing_sources(entries: Seq<EntryView>, exists_there: Seq<bool>) -> Seq<PathView>
    decreases entries.len(),
{
    if entries.len() == 0 || entries.len() != exists_there.len() {
        Seq::empty()
    } else {
        let before = existing_sources(entries.drop_last(), exists_there.drop_last());
        if exists_there.last() && !has_source(before, entries.last().path) {
            before.push(entries.last().path)
        } else {
            before
        }
    }
}

/// Whether a path is among the sources, but for case.
fn contains_source(sources: &Vec<FilePath>, path: &FilePath) -> (r: bool)
    ensures
        r == has_source(path_views(sources@), path@),
{
    let wanted: String = path.text();
    let mut i: usize = 0;
    while i < sources.len()
        invariant
            i <= sources@.len(),
            wanted@ == path@.text(),
            forall|k: int|
                0 <= k < i ==> lowered((#[trigger] path_views(sources@)[k]).text()) != lowered(
                    path@.text(),
                ),
        decreases sources@.len() - i,
    {
        assert(path_views(sources@)[i as int] == sources@[i as int]@);
        let own: String = sources[i].text();
        if crate::text::eq_ignore_ascii_case(own.as_str(), wanted.as_str()) {
            return true;
        }
        i += 1;
    }
    false
}

/// The transcripts that can be asked about, given which of them exist.
pub fn chat_source_candidates(
    entries: &Vec<OutputEntry>,
    exists_there: &Vec<bool>,
    loaded: &Option<FilePath>,
    loaded_exists: bool,
) -> (r: Vec<FilePath>)
    requires
        entries@.len() == exists_there@.len(),
    ensures
        path_views(r@) == chat_sources(
            entry_views(entries@),
            exists_there@,
            match *loaded {
                Some(p) => Some(p@),
                None => None,
            },
            loaded_exists,
        ),
{
    let ghost all = entry_views(entries@);
    let mut out: Vec<FilePath> = Vec::new();
    let mut i: usize = 0;
    assert(path_views(out@) =~= existing_sources(all.take(0), exists_there@.take(0)));
    while i < entries.len()
        invariant
            i <= entries@.len(),
            entries@.len() == exists_there@.len(),
            all == entry_views(entries@),
            path_views(out@) == existing_sources(
                all.take(i as int),
                exists_there@.take(i as int),
            ),
        decreases entries@.len() - i,
    {
        assert(all.take(i + 1).drop_last() =~= all.take(i as int));
        assert(all.take(i + 1).last() == entries@[i as int]@);
        assert(exists_there@.take(i + 1).drop_last() =~= exists_there@.take(i as int));
        if exists_there[i] && !contains_source(&out, &entries[i].path) {
            let ghost before = out@;
            out.push(entries[i].path.copy());
            assert(path_views(out@) =~= path_views(before).push(entries@[i as int].path@));
        }
        i += 1;
    }
    assert(all.take(i as int) =~= all);
    assert(exists_there@.take(i as int) =~= exists_there@);
    if let Some(p) = loaded {
        if loaded_exists && !contains_source(&out, p) {
            let ghost before = out@;
            out.push(p.copy());
            assert(path_views(out@) =~= path_views(before).push(p@));
        }
    }
    out
}

/// What a row of a list is labelled with.
pub fn row_label(entry: &FileEntry) -> (r: String)
    ensures
        r@ == if entry@.path.name.len() == 0 {
            entry@.path.text()
        } else {
            entry@.path.name
        },
{
    if entry.path.name.as_str().is_empty() {
        entry.path.text()
    } else {
        entry.path.name.clone()
    }
}

/// What adding a path does to a list: one that is new comes last, ticked or not as it is asked for; one
/// that is there keeps its place and the way it is written, and is ticked where that is asked for and
/// else left as it is. No other entry changes.
pub proof fn lemma_entry_is_added(entries: Seq<EntryView>, path: PathView, selected: bool)
    ensures
        ({
            let after = with_entry(entries, path, selected);
            &&& !lists(entries, path) ==> after == entries.push(EntryView { path, selected })
            &&& lists(entries, path) && !selected ==> after == entries
            &&& lists(entries, path) ==> {
                let at = entry_pos(entries, path) as int;
                &&& after.len() == entries.len()
                &&& selected ==> after[at].selected && after[at].path == entries[at].path
                &&& forall|i: int|
                    0 <= i < entries.len() && i != at ==> #[trigger] after[i] == entries[i]
            }
            &&& lists(entries, path) ==> with_media(entries, path, selected) == entries
            &&& !lists(entries, path) ==> with_media(entries, path, selected) == entries.push(
                EntryView { path, selected },
            )
        }),
{
    lemma_entry_pos_bound(entries, path);
}

/// Paths that are added in two goes: the second go works on the list that the first has left.
pub proof fn lemma_entries_in_turn(
    entries: Seq<EntryView>,
    first: Seq<PathView>,
    later: Seq<PathView>,
)
    ensures
        with_entries(entries, first + later) == with_entries(with_entries(entries, first), later),
    decreases later.len(),
{
    if later.len() == 0 {
        assert(first + later =~= first);
    } else {
        lemma_entries_in_turn(entries, first, later.drop_last());
        assert((first + later).drop_last() =~= first + later.drop_last());
        assert((first + later).last() == later.last());
    }
}

/// Recordings and transcripts that are added in two goes: the second go works on the lists that the
/// first has left.
pub proof fn lemma_added_in_turn(
    lists: Lists,
    first: Seq<AddedMedia>,
    later: Seq<AddedMedia>,
    outputs: Seq<EntryView>,
    one: Seq<AddedOutput>,
    two: Seq<AddedOutput>,
)
    ensures
        with_added_media(lists, first + later) == with_added_media(
            with_added_media(lists, first),
            later,
        ),
        with_added_outputs(outputs, one + two) == with_added_outputs(
            with_added_outputs(outputs, one),
            two,
        ),
    decreases later.len() + two.len(),
{
    if later.len() > 0 {
        lemma_added_in_turn(lists, first, later.drop_last(), outputs, one, two);
        assert((first + later).drop_last() =~= first + later.drop_last());
        assert((first + later).last() == later.last());
    } else {
        assert(first + later =~= first);
        if two.len() > 0 {
            lemma_added_in_turn(lists, first, later, outputs, one, two.drop_last());
            assert((one + two).drop_last() =~= one + two.drop_last());
            assert((one + two).last() == two.last());
        } else {
            assert(one + two =~= one);
        }
    }
}

/// What adding one recording does: it is put into the list of recordings, ticked where it is new, and of
/// the transcripts beside it those that exist are put into the list of outputs, none of them ticked.
pub proof fn lemma_one_recording(lists: Lists, m: AddedMedia)
    ensures
        ({
            let after = with_added_media(lists, seq![m]);
            &&& after.media == with_media(lists.media, m.path@, true)
            &&& after.outputs == with_entries(lists.outputs, outputs_beside(m))
        }),
        media_outputs(m.path@) matches Some((original, edited)) ==> {
            &&& outputs_beside(m).contains(original) || !m.original_is_file
            &&& outputs_beside(m).contains(edited) || !m.edited_is_file
            &&& outputs_beside(m).len() == (if m.original_is_file {
                1int
            } else {
                0
            }) + (if m.edited_is_file {
                1int
            } else {
                0
            })
        },
        media_outputs(m.path@) is None ==> outputs_beside(m).len() == 0,
{
    let one = seq![m];
    assert(one.drop_last() =~= Seq::empty());
    assert(with_added_media(lists, one.drop_last()) == lists);
    if let Some((original, edited)) = media_outputs(m.path@) {
        let all = outputs_beside(m);
        if m.original_is_file {
            assert(all[0] == original);
        }
        if m.edited_is_file {
            assert(all[all.len() - 1] == edited);
        }
    }
}

/// What adding one transcript does: it is put into the list, and behind it, where that exists, its
/// counterpart: the edited copy of one that is not edited, and the one that was edited of an edited one.
pub proof fn lemma_one_output(outputs: Seq<EntryView>, m: AddedOutput)
    ensures
        !m.counterpart_exists ==> with_added_outputs(outputs, seq![m]) == with_entry(
            outputs,
            m.path@,
            false,
        ),
        m.counterpart_exists && is_edited(m.path@) ==> with_added_outputs(outputs, seq![m])
            == with_entry(with_entry(outputs, m.path@, false), original_of(m.path@), false),
        m.counterpart_exists && !is_edited(m.path@) ==> with_added_outputs(outputs, seq![m])
            == with_entry(with_entry(outputs, m.path@, false), edited_of(m.path@), false),
{
    let one = seq![m];
    assert(one.drop_last() =~= Seq::empty());
    assert(with_added_outputs(outputs, one.drop_last()) == outputs);
}

/// What is ticked and what is not: of two lists put together the ticked paths are those of the first and
/// then those of the second, and so are the entries that are left; each list keeps its order.
pub proof fn lemma_ticks_in_turn(first: Seq<EntryView>, later: Seq<EntryView>)
    ensures
        ticked_paths(first + later) == ticked_paths(first) + ticked_paths(later),
        unticked(first + later) == unticked(first) + unticked(later),
        forall|e: EntryView| #[trigger] ticked_paths(seq![e]) == if e.selected {
            seq![e.path]
        } else {
            Seq::empty()
        },
        forall|e: EntryView| #[trigger] unticked(seq![e]) == if e.selected {
            Seq::empty()
        } else {
            seq![e]
        },
    decreases later.len(),
{
    assert forall|e: EntryView| #[trigger] ticked_paths(seq![e]) == if e.selected {
        seq![e.path]
    } else {
        Seq::empty()
    } by {
        assert(seq![e].drop_last() =~= Seq::empty());
        assert(ticked_paths(seq![e].drop_last()) =~= Seq::empty());
        assert(seq![e].last() == e);
        assert(ticked_paths(seq![e]) =~= if e.selected {
            seq![e.path]
        } else {
            Seq::empty()
        });
    }
    assert forall|e: EntryView| #[trigger] unticked(seq![e]) == if e.selected {
        Seq::empty()
    } else {
        seq![e]
    } by {
        assert(seq![e].drop_last() =~= Seq::empty());
        assert(unticked(seq![e].drop_last()) =~= Seq::empty());
        assert(seq![e].last() == e);
        assert(unticked(seq![e]) =~= if e.selected {
            Seq::empty()
        } else {
            seq![e]
        });
    }
    if later.len() == 0 {
        assert(first + later =~= first);
        assert(ticked_paths(first) + ticked_paths(later) =~= ticked_paths(first));
        assert(unticked(first) + unticked(later) =~= unticked(first));
    } else {
        lemma_ticks_in_turn(first, later.drop_last());
        assert((first + later).drop_last() =~= first + later.drop_last());
        assert((first + later).last() == later.last());
        assert(ticked_paths(first + later) =~= ticked_paths(first) + ticked_paths(later));
        assert(unticked(first + later) =~= unticked(first) + unticked(later));
    }
}

/// Which transcripts can be asked about: of those in the list exactly the ones whose file exists, each
/// once but for case; and the one that is loaded, where its file exists, at the end if it is not among
/// them.
pub proof fn lemma_chat_sources(
    entries: Seq<EntryView>,
    exists_there: Seq<bool>,
    loaded: Option<PathView>,
    loaded_exists: bool,
)
    requires
        entries.len() == exists_there.len(),
    ensures
        ({
            let all = chat_sources(entries, exists_there, loaded, loaded_exists);
            &&& existing_sources(entries, exists_there).is_prefix_of(all)
            &&& forall|i: int|
                0 <= i < entries.len() && exists_there[i] ==> has_source(
                    all,
                    (#[trigger] entries[i]).path,
                )
            &&& loaded matches Some(p) ==> loaded_exists ==> has_source(all, p)
            &&& all.len() <= existing_sources(entries, exists_there).len() + 1
            &&& loaded is None || !loaded_exists ==> all == existing_sources(entries, exists_there)
        }),
{
    let listed = existing_sources(entries, exists_there);
    let all = chat_sources(entries, exists_there, loaded, loaded_exists);
    assert(all.take(listed.len() as int) =~= listed);
    assert forall|i: int| 0 <= i < entries.len() && exists_there[i] implies has_source(
        all,
        (#[trigger] entries[i]).path,
    ) by {
        lemma_existing_sources(entries, exists_there, i);
        let k = choose|k: int|
            0 <= k < listed.len() && lowered((#[trigger] listed[k]).text()) == lowered(
                entries[i].path.text(),
            );
        assert(all[k] == listed[k]);
    }
    if let Some(p) = loaded {
        if loaded_exists && !has_source(listed, p) {
            assert(all[listed.len() as int] == p);
        }
    }
}

/// Each entry whose file exists is among the sources.
proof fn lemma_existing_sources(entries: Seq<EntryView>, exists_there: Seq<bool>, i: int)
    requires
        entries.len() == exists_there.len(),
        0 <= i < entries.len(),
        exists_there[i],
    ensures
        has_source(existing_sources(entries, exists_there), entries[i].path),
    decreases entries.len(),
{
    let before = existing_sources(entries.drop_last(), exists_there.drop_last());
    let all = existing_sources(entries, exists_there);
    if i < entries.len() - 1 {
        lemma_existing_sources(entries.drop_last(), exists_there.drop_last(), i);
        let k = choose|k: int|
            0 <= k < before.len() && lowered((#[trigger] before[k]).text()) == lowered(
                entries[i].path.text(),
            );
        assert(all[k] == before[k]);
    } else if !has_source(before, entries[i].path) {
        assert(all[before.len() as int] == entries[i].path);
    }
}

/// Each source is an entry whose file exists, and no two are the same but for case.
pub proof fn lemma_sources_exist(entries: Seq<EntryView>, exists_there: Seq<bool>)
    requires
        entries.len() == exists_there.len(),
    ensures
        forall|k: int|
            0 <= k < existing_sources(entries, exists_there).len() ==> exists|i: int|
                0 <= i < entries.len() && exists_there[i] && (#[trigger] entries[i]).path
                    == #[trigger] existing_sources(entries, exists_there)[k],
        forall|k: int, l: int|
            0 <= k < l < existing_sources(entries, exists_there).len() ==> lowered(
                (#[trigger] existing_sources(entries, exists_there)[k]).text(),
            ) != lowered((#[trigger] existing_sources(entries, exists_there)[l]).text()),
    decreases entries.len(),
{
    if entries.len() > 0 {
        let rest = entries.drop_last();
        let there = exists_there.drop_last();
        lemma_sources_exist(rest, there);
        let before = existing_sources(rest, there);
        let all = existing_sources(entries, exists_there);
        assert forall|k: int| 0 <= k < all.len() implies exists|i: int|
            0 <= i < entries.len() && exists_there[i] && (#[trigger] entries[i]).path
                == #[trigger] all[k] by {
            if k < before.len() {
                assert(all[k] == before[k]);
                let i = choose|i: int|
                    0 <= i < rest.len() && there[i] && (#[trigger] rest[i]).path == before[k];
                assert(entries[i].path == all[k]);
            } else {
                assert(entries[entries.len() - 1].path == all[k]);
            }
        }
        assert forall|k: int, l: int| 0 <= k < l < all.len() implies lowered(
            (#[trigger] all[k]).text(),
        ) != lowered((#[trigger] all[l]).text()) by {
            assert(all[k] == before[k]);
            if l < before.len() {
                assert(all[l] == before[l]);
            }
        }
    }
}

} // verus!
