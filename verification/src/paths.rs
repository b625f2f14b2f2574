//! File paths and the files that belong together.
use crate::path_text::{
    as_folder, base_len, cut_path, folder_of, folder_text, last_name, lemma_base_len,
    lemma_name_start, lemma_without_tail, marks_of, name_start, path_folder, paths_equal, same_path,
    without_tail, PathCuts,
};
use crate::text::{
    cat2, cat3, chars_of, eq_ignore_ascii_case, finishes_with, has_suffix, lowered, same_text,
    stripped, text_of_range, to_ascii_lowercase, trim, views,
};
use vstd::prelude::*;
use vstd::string::*;

verus! {

/// The systems that the program tells apart.
#[derive(Debug, Clone, Copy, PartialEq, Eq, Structural)]
pub enum Platform {
    Windows,
    MacOs,
    Linux,
    Other,
}

/// The path of a file as the system it is used on reads it: everything before the file name, the
/// file name, and what may stand behind that (separators, and components `.`). Of a path without a
/// file name, such as a root, all stands before the name, which is then empty.
#[derive(Debug, Clone)]
pub struct FilePath {
    pub platform: Platform,
    pub prefix: String,
    pub name: String,
    pub tail: String,
}

/// What a file path consists of.
pub struct PathView {
    pub platform: Platform,
    pub prefix: Seq<char>,
    pub name: Seq<char>,
    pub tail: Seq<char>,
}

impl PathView {
    /// The path as it is written.
    pub open spec fn text(self) -> Seq<char> {
        self.prefix + self.name + self.tail
    }

    /// What is written before the name of a file in the same folder: what stands before the own
    /// name, and of a path without one, the folder that it lies in.
    pub open spec fn folder(self) -> Seq<char> {
        if self.name.len() > 0 {
            self.prefix
        } else {
            as_folder(self.platform, folder_of(self.platform, self.text()))
        }
    }

    /// The file of the given name in the same folder.
    pub open spec fn beside(self, name: Seq<char>) -> PathView {
        PathView { platform: self.platform, prefix: self.folder(), name, tail: Seq::empty() }
    }
}

impl View for FilePath {
    type V = PathView;

    open spec fn view(&self) -> PathView {
        PathView {
            platform: self.platform,
            prefix: self.prefix@,
            name: self.name@,
            tail: self.tail@,
        }
    }
}

/// Whether two paths are the same, however they are written: of the same folder and the same name.
pub open spec fn same_file(a: PathView, b: PathView) -> bool {
    &&& a.platform == b.platform
    &&& same_path(a.platform, a.prefix, b.prefix)
    &&& a.name == b.name
}

/// Whether a path is known and is the given one.
pub open spec fn is_known(known: Option<PathView>, path: PathView) -> bool {
    match known {
        Some(p) => same_file(p, path),
        None => false,
    }
}

/// How many characters stand before the last `c`; `None` where there is none.
pub open spec fn last_pos(s: Seq<char>, c: char) -> Option<nat>
    decreases s.len(),
{
    if s.len() == 0 {
        None
    } else if s.last() == c {
        Some((s.len() - 1) as nat)
    } else {
        last_pos(s.drop_last(), c)
    }
}

/// `last_pos` is the greatest position at which `c` stands.
pub proof fn lemma_last_pos(s: Seq<char>, c: char)
    ensures
        match last_pos(s, c) {
            Some(n) => n < s.len() && s[n as int] == c && forall|k: int|
                n < k < s.len() ==> s[k] != c,
            None => forall|k: int| 0 <= k < s.len() ==> s[k] != c,
        },
    decreases s.len(),
{
    if s.len() > 0 && s.last() != c {
        lemma_last_pos(s.drop_last(), c);
        assert forall|k: int| 0 <= k < s.len() - 1 implies s[k] == s.drop_last()[k] by {}
    }
}

/// Where the extension of a file name is parted from its stem: at the last dot, unless that is the
/// first character.
pub open spec fn extension_dot(name: Seq<char>) -> Option<nat> {
    match last_pos(name, '.') {
        Some(n) => if n > 0 {
            Some(n)
        } else {
            None
        },
        None => None,
    }
}

/// The file name without its extension.
pub open spec fn stem_of(name: Seq<char>) -> Seq<char> {
    match extension_dot(name) {
        Some(n) => name.take(n as int),
        None => name,
    }
}

/// The stem of a file name, and `default` where there is no name.
pub open spec fn stem_or(name: Seq<char>, default: Seq<char>) -> Seq<char> {
    if name.len() == 0 {
        default
    } else {
        stem_of(name)
    }
}

/// The extension of a file name.
pub open spec fn extension_of(name: Seq<char>) -> Option<Seq<char>> {
    match extension_dot(name) {
        Some(n) => Some(name.skip((n + 1) as int)),
        None => None,
    }
}

/// Where the extension is parted from the stem, in the characters of a file name.
fn find_extension_dot(v: &Vec<char>) -> (r: Option<usize>)
    ensures
        match r {
            Some(n) => extension_dot(v@) == Some(n as nat) && 0 < n < v.len(),
            None => extension_dot(v@) is None,
        },
{
    let mut n: usize = v.len();
    assert(v@.take(n as int) =~= v@);
    while n > 0
        invariant
            n <= v@.len(),
            last_pos(v@, '.') == last_pos(v@.take(n as int), '.'),
        decreases n,
    {
        assert(v@.take(n as int).drop_last() =~= v@.take(n - 1));
        if v[n - 1] == '.' {
            return if n > 1 {
                Some(n - 1)
            } else {
                None
            };
        }
        n -= 1;
    }
    None
}

impl FilePath {
    /// The path as it is written.
    pub fn text(&self) -> (r: String)
        ensures
            r@ == self@.text(),
    {
        cat3(self.prefix.as_str(), self.name.as_str(), self.tail.as_str())
    }

    /// The same path once more.
    pub fn copy(&self) -> (r: FilePath)
        ensures
            r@ == self@,
    {
        FilePath {
            platform: self.platform,
            prefix: self.prefix.clone(),
            name: self.name.clone(),
            tail: self.tail.clone(),
        }
    }

    /// The file of the given name in the same folder.
    pub fn beside(&self, name: String) -> (r: FilePath)
        ensures
            r@ == self@.beside(name@),
    {
        let prefix: String = if self.name.as_str().is_empty() {
            let text: String = self.text();
            let folder: String = path_folder(self.platform, text.as_str());
            folder_text(self.platform, folder.as_str())
        } else {
            self.prefix.clone()
        };
        let tail: String = String::new();
        assert(tail@ =~= Seq::<char>::empty());
        FilePath { platform: self.platform, prefix, name, tail }
    }

    /// Whether two paths are the same, however they are written.
    pub fn same(&self, other: &FilePath) -> (r: bool)
        ensures
            r == same_file(self@, other@),
    {
        self.platform == other.platform && paths_equal(
            self.platform,
            self.prefix.as_str(),
            other.prefix.as_str(),
        ) && same_text(self.name.as_str(), other.name.as_str())
    }

    /// The file name without its extension.
    pub fn stem(&self) -> (r: String)
        ensures
            r@ == stem_of(self@.name),
    {
        let v: Vec<char> = chars_of(self.name.as_str());
        match find_extension_dot(&v) {
            Some(n) => {
                assert(v@.take(n as int) =~= v@.subrange(0, n as int));
                text_of_range(&v, 0, n)
            },
            None => self.name.clone(),
        }
    }

    /// The stem of the file name, and `default` where there is no name.
    pub fn stem_or(&self, default: &str) -> (r: String)
        ensures
            r@ == stem_or(self@.name, default@),
    {
        if self.name.as_str().is_empty() {
            default.to_owned()
        } else {
            self.stem()
        }
    }

    /// The extension of the file name.
    pub fn extension(&self) -> (r: Option<String>)
        ensures
            match r {
                Some(e) => extension_of(self@.name) == Some(e@),
                None => extension_of(self@.name) is None,
            },
    {
        let v: Vec<char> = chars_of(self.name.as_str());
        match find_extension_dot(&v) {
            Some(n) => {
                assert(v@.skip(n + 1) =~= v@.subrange(n + 1, v@.len() as int));
                Some(text_of_range(&v, n + 1, v.len()))
            },
            None => None,
        }
    }
}

/// Whether a path is that of an edited transcript.
pub open spec fn is_edited(p: PathView) -> bool {
    has_suffix(stem_of(p.name), ".edited"@)
}

/// Whether a path is that of an edited transcript.
pub fn is_edited_output_path(path: &FilePath) -> (r: bool)
    ensures
        r == is_edited(path@),
{
    let stem: String = path.stem();
    finishes_with(stem.as_str(), ".edited")
}

/// The edited transcript that belongs to a transcript.
pub open spec fn edited_of(p: PathView) -> PathView {
    let ext = match extension_of(p.name) {
        Some(e) => e,
        None => "md"@,
    };
    p.beside(stem_or(p.name, "output"@) + ".edited."@ + ext)
}

/// The edited transcript that belongs to a transcript.
pub fn edited_file_path(original: &FilePath) -> (r: FilePath)
    ensures
        r@ == edited_of(original@),
{
    let stem: String = original.stem_or("output");
    let ext: String = match original.extension() {
        Some(e) => e,
        None => "md".to_owned(),
    };
    original.beside(cat3(stem.as_str(), ".edited.", ext.as_str()))
}

/// The transcript that a path belongs to: itself, or, of an edited transcript, the one that was
/// edited.
pub open spec fn original_of(p: PathView) -> PathView {
    if !is_edited(p) {
        p
    } else {
        let stem = stem_of(p.name);
        let base = stem.take(stem.len() - 7);
        p.beside(
            match extension_of(p.name) {
                Some(e) => base + "."@ + e,
                None => base,
            },
        )
    }
}

/// The transcript that a path belongs to.
pub fn original_output_path_for_any(path: &FilePath) -> (r: FilePath)
    ensures
        r@ == original_of(path@),
{
    if !is_edited_output_path(path) {
        return path.copy();
    }
    let stem: String = path.stem();
    let v: Vec<char> = chars_of(stem.as_str());
    proof {
        reveal_strlit(".edited");
    }
    let base: String = text_of_range(&v, 0, v.len() - 7);
    assert(base@ =~= v@.take(v@.len() - 7));
    path.beside(
        match path.extension() {
            Some(e) => cat3(base.as_str(), ".", e.as_str()),
            None => base,
        },
    )
}

/// Of a name `a.b` whose part behind the dot holds no dot, `a` is the stem and `b` the extension.
proof fn lemma_split_name(a: Seq<char>, b: Seq<char>)
    requires
        a.len() > 0,
        !b.contains('.'),
    ensures
        extension_dot(a + "."@ + b) == Some(a.len()),
        stem_of(a + "."@ + b) == a,
        extension_of(a + "."@ + b) == Some(b),
{
    reveal_strlit(".");
    let name = a + "."@ + b;
    lemma_last_pos(name, '.');
    assert(name[a.len() as int] == '.');
    match last_pos(name, '.') {
        Some(n) => {
            if n > a.len() {
                assert(name[n as int] == b[n - a.len() - 1]);
                assert(b.contains(b[n - a.len() - 1]));
            }
            assert(n == a.len());
        },
        None => {},
    }
    assert(name.take(a.len() as int) =~= a);
    assert(name.skip((a.len() + 1) as int) =~= b);
}

/// The transcript that an edited transcript belongs to is the one that it was made of, for every
/// file name with an extension.
pub proof fn lemma_original_of_edited(p: PathView)
    requires
        extension_of(p.name) is Some,
    ensures
        is_edited(edited_of(p)),
        original_of(edited_of(p)) == (PathView { tail: Seq::empty(), ..p }),
        same_file(original_of(edited_of(p)), p),
{
    reveal_strlit(".edited.");
    reveal_strlit(".edited");
    reveal_strlit(".");
    lemma_last_pos(p.name, '.');
    let n = last_pos(p.name, '.')->0;
    let stem = stem_of(p.name);
    let ext = extension_of(p.name)->0;
    assert(!ext.contains('.')) by {
        if ext.contains('.') {
            let k = choose|k: int| 0 <= k < ext.len() && ext[k] == '.';
            assert(p.name[n + 1 + k] == '.');
        }
    }
    let long = stem + ".edited"@;
    assert(stem + ".edited."@ + ext =~= long + "."@ + ext);
    lemma_split_name(long, ext);
    assert(long.subrange(long.len() - 7, long.len() as int) =~= ".edited"@);
    assert(long.take(long.len() - 7) =~= stem);
    assert(stem + "."@ + ext =~= p.name);
    assert(edited_of(p).name == long + "."@ + ext);
}

/// The log of the chat about a transcript.
pub open spec fn chat_log_of(p: PathView) -> PathView {
    p.beside(stem_or(p.name, "chat"@) + ".log"@)
}

/// The log of the chat about a transcript.
pub fn chat_log_path_for_output(output_file: &FilePath) -> (r: FilePath)
    ensures
        r@ == chat_log_of(output_file@),
{
    let stem: String = output_file.stem_or("chat");
    output_file.beside(cat2(stem.as_str(), ".log"))
}

/// Where the transcript of a recording stands when the engine does not say: in the given folder,
/// under the name of the recording, as subtitles or as Markdown.
pub open spec fn fallback_output(audio: PathView, mode: Seq<char>, folder: Seq<char>) -> PathView {
    PathView {
        platform: audio.platform,
        prefix: as_folder(audio.platform, folder),
        name: stem_or(audio.name, "output"@) + "."@ + if lowered(mode) == lowered("subtitle"@) {
            "srt"@
        } else {
            "md"@
        },
        tail: Seq::empty(),
    }
}

/// Where the transcript of a recording stands when the engine does not say.
pub fn fallback_output_path(audio_path: &FilePath, mode: &str, output_dir: &str) -> (r: FilePath)
    ensures
        r@ == fallback_output(audio_path@, mode@, output_dir@),
{
    let stem: String = audio_path.stem_or("output");
    let ext: &str = if eq_ignore_ascii_case(mode, "subtitle") {
        "srt"
    } else {
        "md"
    };
    let tail: String = String::new();
    assert(tail@ =~= Seq::<char>::empty());
    FilePath {
        platform: audio_path.platform,
        prefix: folder_text(audio_path.platform, output_dir),
        name: cat3(stem.as_str(), ".", ext),
        tail,
    }
}

/// The format of a recording: its extension in lower case.
pub fn infer_audio_format(audio_path: &FilePath) -> (r: String)
    ensures
        r@ == match extension_of(audio_path@.name) {
            Some(e) => lowered(e),
            None => "bin"@,
        },
{
    match audio_path.extension() {
        Some(e) => to_ascii_lowercase(e.as_str()),
        None => "bin".to_owned(),
    }
}

/// The transcript and the edited transcript that may lie beside a recording; none where its name
/// is blank.
pub open spec fn media_outputs(p: PathView) -> Option<(PathView, PathView)> {
    let stem = stem_of(p.name);
    if stripped(stem).len() == 0 {
        None
    } else {
        Some((p.beside(stem + ".md"@), p.beside(stem + ".edited.md"@)))
    }
}

/// The transcript and the edited transcript that may lie beside a recording.
pub fn output_paths_for_media(media_path: &FilePath) -> (r: Option<(FilePath, FilePath)>)
    ensures
        match r {
            Some((a, b)) => media_outputs(media_path@) == Some((a@, b@)),
            None => media_outputs(media_path@) is None,
        },
{
    let stem: String = media_path.stem();
    if trim(stem.as_str()).is_empty() {
        return None;
    }
    Some(
        (
            media_path.beside(cat2(stem.as_str(), ".md")),
            media_path.beside(cat2(stem.as_str(), ".edited.md")),
        ),
    )
}

/// The views of a list of paths.
pub open spec fn path_views(paths: Seq<FilePath>) -> Seq<PathView> {
    Seq::new(paths.len(), |i: int| paths[i]@)
}

/// The transcripts beside a recording that exist, given whether each of the two does.
pub fn existing_output_paths_for_media(
    media_path: &FilePath,
    original_is_file: bool,
    edited_is_file: bool,
) -> (r: Vec<FilePath>)
    ensures
        path_views(r@) == match media_outputs(media_path@) {
            Some((original, edited)) => (if original_is_file {
                seq![original]
            } else {
                Seq::empty()
            }) + (if edited_is_file {
                seq![edited]
            } else {
                Seq::empty()
            }),
            None => Seq::empty(),
        },
{
    let mut out: Vec<FilePath> = Vec::new();
    if let Some((original, edited)) = output_paths_for_media(media_path) {
        if original_is_file {
            out.push(original);
        }
        if edited_is_file {
            out.push(edited);
        }
    }
    assert(path_views(out@) =~= match media_outputs(media_path@) {
        Some((original, edited)) => (if original_is_file {
            seq![original]
        } else {
            Seq::empty()
        }) + (if edited_is_file {
            seq![edited]
        } else {
            Seq::empty()
        }),
        None => Seq::empty(),
    });
    out
}

/// The extensions of the media files that can be transcribed.
pub open spec fn media_extensions() -> Seq<&'static str> {
    seq![
        "wav",
        "mp3",
        "m4a",
        "mp4",
        "mkv",
        "flac",
        "ogg",
        "opus",
        "aac",
        "wma",
        "webm",
        "mov",
        "aiff",
        "aif",
    ]
}

/// The extensions of the media files that can be transcribed.
pub fn supported_media_extensions() -> (r: Vec<&'static str>)
    ensures
        r@ == media_extensions(),
{
    let r: Vec<&'static str> =
        vec![
        "wav",
        "mp3",
        "m4a",
        "mp4",
        "mkv",
        "flac",
        "ogg",
        "opus",
        "aac",
        "wma",
        "webm",
        "mov",
        "aiff",
        "aif",
    ];
    assert(r@ =~= media_extensions());
    r
}

/// Whether an extension, in any case, is that of a media file.
pub open spec fn is_media_extension(ext: Seq<char>) -> bool {
    exists|i: int|
        0 <= i < media_extensions().len() && lowered(ext) == lowered(
            (#[trigger] media_extensions()[i])@,
        )
}

/// Whether an extension, in any case, is that of a media file.
pub fn looks_like_audio_extension(ext: &str) -> (r: bool)
    ensures
        r == is_media_extension(ext@),
{
    let allowed: Vec<&'static str> = supported_media_extensions();
    let mut i: usize = 0;
    while i < allowed.len()
        invariant
            i <= allowed@.len(),
            allowed@ == media_extensions(),
            forall|k: int|
                0 <= k < i ==> lowered(ext@) != lowered((#[trigger] media_extensions()[k])@),
        decreases allowed@.len() - i,
    {
        if eq_ignore_ascii_case(ext, allowed[i]) {
            assert(lowered(ext@) == lowered(media_extensions()[i as int]@));
            return true;
        }
        i += 1;
    }
    false
}

/// Whether a file is the recording of which a transcript with the stem `base` was made.
pub open spec fn is_recording_of(file: PathView, base: Seq<char>) -> bool {
    &&& extension_of(file.name) matches Some(e) && is_media_extension(e)
    &&& lowered(stem_of(file.name)) == lowered(base)
}

/// The stem of a transcript, without the mark of an edited one.
pub open spec fn base_stem(p: PathView) -> Seq<char> {
    let stem = stem_of(p.name);
    if has_suffix(stem, ".edited"@) {
        stem.take(stem.len() - 7)
    } else {
        stem
    }
}

/// The first recording among the files.
pub open spec fn first_recording(files: Seq<PathView>, base: Seq<char>) -> Option<PathView>
    decreases files.len(),
{
    if files.len() == 0 {
        None
    } else if is_recording_of(files[0], base) {
        Some(files[0])
    } else {
        first_recording(files.drop_first(), base)
    }
}

/// The recording of which a transcript was made: the first file of its folder, in the order given,
/// that is a media file of the same name.
pub fn guess_audio_path_for_output(output_path: &FilePath, files: &Vec<FilePath>) -> (r: Option<
    FilePath,
>)
    ensures
        match r {
            Some(p) => first_recording(path_views(files@), base_stem(output_path@)) == Some(p@),
            None => first_recording(path_views(files@), base_stem(output_path@)) is None,
        },
{
    let stem: String = output_path.stem();
    let base: String = if finishes_with(stem.as_str(), ".edited") {
        let v: Vec<char> = chars_of(stem.as_str());
        proof {
            reveal_strlit(".edited");
        }
        let b: String = text_of_range(&v, 0, v.len() - 7);
        assert(b@ =~= v@.take(v@.len() - 7));
        b
    } else {
        stem
    };
    let ghost all = path_views(files@);
    let ghost want = base_stem(output_path@);
    let mut i: usize = 0;
    assert(all.skip(0) =~= all);
    while i < files.len()
        invariant
            i <= files@.len(),
            all == path_views(files@),
            base@ == want,
            want == base_stem(output_path@),
            first_recording(all, want) == first_recording(all.skip(i as int), want),
        decreases files@.len() - i,
    {
        let file: &FilePath = &files[i];
        assert(all.skip(i as int)[0] == file@);
        assert(all.skip(i as int).drop_first() =~= all.skip(i + 1));
        if let Some(e) = file.extension() {
            if looks_like_audio_extension(e.as_str()) {
                let own: String = file.stem();
                if eq_ignore_ascii_case(own.as_str(), base.as_str()) {
                    return Some(file.copy());
                }
            }
        }
        i += 1;
    }
    None
}

/// The path under which playback knows a file: the canonical one where the system gives one.
pub fn normalize_playback_path(path: &str, canonical: Option<String>) -> (r: String)
    ensures
        r@ == match canonical {
            Some(c) => c@,
            None => path@,
        },
{
    match canonical {
        Some(c) => c,
        None => path.to_owned(),
    }
}

/// Whether two paths name the same file for playback: on Windows the case does not matter.
pub open spec fn same_playback_path(platform: Platform, a: Seq<char>, b: Seq<char>) -> bool {
    if platform is Windows {
        lowered(a) == lowered(b)
    } else {
        a == b
    }
}

/// Whether two normalized paths are the same file. On Windows case does not count.
pub fn playback_paths_equal(platform: Platform, a: &str, b: &str) -> (r: bool)
    ensures
        r == same_playback_path(platform, a@, b@),
{
    match platform {
        Platform::Windows => eq_ignore_ascii_case(a, b),
        _ => same_text(a, b),
    }
}

/// Whether `list` holds `text`, but for case.
pub open spec fn holds_folded(list: Seq<Seq<char>>, text: Seq<char>) -> bool {
    exists|i: int| 0 <= i < list.len() && lowered(#[trigger] list[i]) == lowered(text)
}

/// The texts that are not empty, the first of each that differ only in case, in their order.
pub open spec fn deduped(texts: Seq<Seq<char>>) -> Seq<Seq<char>>
    decreases texts.len(),
{
    if texts.len() == 0 {
        Seq::empty()
    } else {
        let before = deduped(texts.drop_last());
        if texts.last().len() == 0 || holds_folded(before, texts.last()) {
            before
        } else {
            before.push(texts.last())
        }
    }
}

/// Whether `list` holds `text`, but for case.
pub fn contains_folded(list: &Vec<String>, text: &str) -> (r: bool)
    ensures
        r == holds_folded(views(list@), text@),
{
    let mut i: usize = 0;
    while i < list.len()
        invariant
            i <= list@.len(),
            forall|k: int| 0 <= k < i ==> lowered(#[trigger] views(list@)[k]) != lowered(text@),
        decreases list@.len() - i,
    {
        if eq_ignore_ascii_case(list[i].as_str(), text) {
            assert(lowered(views(list@)[i as int]) == lowered(text@));
            return true;
        }
        i += 1;
    }
    false
}

/// The paths that are not empty, the first of each that differ only in case, in their order.
pub fn dedupe_paths(paths: Vec<String>) -> (r: Vec<String>)
    ensures
        views(r@) == deduped(views(paths@)),
{
    let ghost all = views(paths@);
    let mut out: Vec<String> = Vec::new();
    let mut i: usize = 0;
    assert(views(out@) =~= deduped(all.take(0)));
    while i < paths.len()
        invariant
            i <= paths@.len(),
            all == views(paths@),
            views(out@) == deduped(all.take(i as int)),
        decreases paths@.len() - i,
    {
        assert(all.take(i + 1).drop_last() =~= all.take(i as int));
        assert(all.take(i + 1).last() == paths@[i as int]@);
        if !paths[i].as_str().is_empty() && !contains_folded(&out, paths[i].as_str()) {
            let ghost before = out@;
            out.push(paths[i].clone());
            assert(views(out@) =~= views(before).push(paths@[i as int]@));
        }
        i += 1;
    }
    assert(all.take(i as int) =~= all);
    out
}

/// No two of the deduplicated paths are the same but for case, and none is empty.
pub proof fn lemma_deduped_distinct(texts: Seq<Seq<char>>)
    ensures
        forall|i: int| 0 <= i < deduped(texts).len() ==> (#[trigger] deduped(texts)[i]).len() > 0,
        forall|i: int, j: int|
            0 <= i < j < deduped(texts).len() ==> lowered(#[trigger] deduped(texts)[i]) != lowered(
                #[trigger] deduped(texts)[j],
            ),
    decreases texts.len(),
{
    if texts.len() > 0 {
        lemma_deduped_distinct(texts.drop_last());
        let before = deduped(texts.drop_last());
        let after = deduped(texts);
        assert forall|i: int, j: int| 0 <= i < j < after.len() implies lowered(
            #[trigger] after[i],
        ) != lowered(#[trigger] after[j]) by {
            assert(after[i] == before[i]);
            if j < before.len() {
                assert(after[j] == before[j]);
            } else {
                assert(!holds_folded(before, texts.last()));
                assert(lowered(before[i]) != lowered(texts.last()));
            }
        }
        assert forall|i: int| 0 <= i < after.len() implies (#[trigger] after[i]).len() > 0 by {
            if i < before.len() {
                assert(after[i] == before[i]);
            }
        }
    }
}

/// Every path that is not empty is there after deduplication, but for case.
pub proof fn lemma_deduped_complete(texts: Seq<Seq<char>>, k: int)
    requires
        0 <= k < texts.len(),
        texts[k].len() > 0,
    ensures
        holds_folded(deduped(texts), texts[k]),
    decreases texts.len(),
{
    let before = deduped(texts.drop_last());
    let after = deduped(texts);
    if k < texts.len() - 1 {
        lemma_deduped_complete(texts.drop_last(), k);
        assert(texts.drop_last()[k] == texts[k]);
        let i = choose|i: int|
            0 <= i < before.len() && lowered(#[trigger] before[i]) == lowered(texts[k]);
        assert(after[i] == before[i]);
    } else if !holds_folded(before, texts.last()) {
        assert(after[before.len() as int] == texts.last());
    }
}

/// The file path that `text` writes.
pub open spec fn file_path_at(platform: Platform, text: Seq<char>) -> PathView {
    let name = last_name(platform, text);
    if name.len() == 0 || name == "."@ || name == ".."@ {
        PathView { platform, prefix: text, name: Seq::empty(), tail: Seq::empty() }
    } else {
        PathView {
            platform,
            prefix: text.take(name_start(platform, text) as int),
            name,
            tail: text.skip(without_tail(platform, text).len() as int),
        }
    }
}

/// The file path that `text` writes.
pub fn file_path(platform: Platform, text: &str) -> (r: FilePath)
    ensures
        r@ == file_path_at(platform, text@),
{
    let v: Vec<char> = chars_of(text);
    let cuts: PathCuts = cut_path(platform, &v);
    let name: String = text_of_range(&v, cuts.start, cuts.end);
    assert(name@ =~= text@.take(cuts.end as int).skip(cuts.start as int));
    if name.as_str().is_empty() || same_text(name.as_str(), ".") || same_text(name.as_str(), "..") {
        let none: String = String::new();
        assert(none@ =~= Seq::<char>::empty());
        return FilePath { platform, prefix: text.to_owned(), name: none.clone(), tail: none };
    }
    let prefix: String = text_of_range(&v, 0, cuts.start);
    assert(prefix@ =~= text@.take(cuts.start as int));
    let tail: String = text_of_range(&v, cuts.end, v.len());
    assert(tail@ =~= text@.skip(cuts.end as int));
    FilePath { platform, prefix, name, tail }
}

/// The file path that `text` writes; `None` where its last component is no file name.
pub open spec fn file_path_in(platform: Platform, text: Seq<char>) -> Option<PathView> {
    let p = file_path_at(platform, text);
    if p.name.len() == 0 {
        None
    } else {
        Some(p)
    }
}

/// The file path that `text` writes; `None` where its last component is no file name.
pub fn file_path_of(platform: Platform, text: &str) -> (r: Option<FilePath>)
    ensures
        match r {
            Some(p) => file_path_in(platform, text@) == Some(p@),
            None => file_path_in(platform, text@) is None,
        },
{
    let p: FilePath = file_path(platform, text);
    if p.name.as_str().is_empty() {
        None
    } else {
        Some(p)
    }
}

/// A file path is written as the text that it was read from.
pub proof fn lemma_text_of_file_path(platform: Platform, text: Seq<char>)
    ensures
        file_path_at(platform, text).text() == text,
{
    let marks = marks_of(platform, text);
    let base = base_len(platform, text);
    let whole = without_tail(platform, text);
    lemma_base_len(platform, text);
    lemma_without_tail(marks, base, text);
    lemma_name_start(marks, base, whole);
    assert(file_path_at(platform, text).text() =~= text);
}

/// The files that belong together by their names, for a file `a.b` in a folder: the edited transcript is
/// `a.edited.b`, the log of the chat `a.log`, the transcripts beside a recording are `a.md` and
/// `a.edited.md`; where the engine does not say, the output is `a.srt` for subtitles and `a.md` for
/// anything else. All but the last lie in the same folder, and the last in the one that is asked for.
pub proof fn lemma_names_beside(
    p: PathView,
    a: Seq<char>,
    b: Seq<char>,
    mode: Seq<char>,
    folder: Seq<char>,
)
    requires
        p.name == a + "."@ + b,
        a.len() > 0,
        !b.contains('.'),
    ensures
        edited_of(p).name == a + ".edited."@ + b,
        edited_of(p).prefix == p.prefix,
        chat_log_of(p).name == a + ".log"@,
        chat_log_of(p).prefix == p.prefix,
        stripped(a).len() > 0 ==> (media_outputs(p) matches Some((original, edited))
            && original.name == a + ".md"@ && original.prefix == p.prefix && edited.name == a
            + ".edited.md"@ && edited.prefix == p.prefix),
        stripped(a).len() == 0 ==> media_outputs(p) is None,
        lowered(mode) == lowered("subtitle"@) ==> fallback_output(p, mode, folder).name == a
            + "."@ + "srt"@,
        lowered(mode) != lowered("subtitle"@) ==> fallback_output(p, mode, folder).name == a
            + "."@ + "md"@,
        fallback_output(p, mode, folder).prefix == as_folder(p.platform, folder),
        edited_of(p).platform == p.platform && chat_log_of(p).platform == p.platform,
        edited_of(p).tail.len() == 0 && chat_log_of(p).tail.len() == 0,
{
    reveal_strlit(".");
    lemma_split_name(a, b);
}

/// The files that belong to a path without a name have names of their own, and a file without an
/// extension is edited as Markdown.
pub proof fn lemma_names_without_extension(p: PathView, mode: Seq<char>, folder: Seq<char>)
    requires
        extension_dot(p.name) is None,
    ensures
        p.name.len() == 0 ==> edited_of(p).name == "output"@ + ".edited."@ + "md"@
            && chat_log_of(p).name == "chat"@ + ".log"@,
        p.name.len() > 0 ==> edited_of(p).name == p.name + ".edited."@ + "md"@ && chat_log_of(p).name
            == p.name + ".log"@,
        stem_of(p.name) == p.name,
        extension_of(p.name) is None,
{
}

/// Of a transcript `a.edited.b` the one that was edited is `a.b`, in the same folder; a transcript that
/// is not edited is its own original. The recording is looked for under `a` either way.
pub proof fn lemma_original_name(p: PathView, a: Seq<char>, b: Seq<char>)
    requires
        a.len() > 0,
        !b.contains('.'),
    ensures
        p.name == a + ".edited"@ + "."@ + b ==> is_edited(p) && original_of(p).name == a + "."@ + b
            && original_of(p).prefix == p.prefix && base_stem(p) == a,
        p.name == a + "."@ + b && !has_suffix(a, ".edited"@) ==> !is_edited(p) && original_of(p) == p
            && base_stem(p) == a,
{
    reveal_strlit(".edited");
    reveal_strlit(".");
    let long = a + ".edited"@;
    lemma_split_name(a, b);
    lemma_split_name(long, b);
    assert(long.subrange(long.len() - 7, long.len() as int) =~= ".edited"@);
    assert(long.take(long.len() - 7) =~= a);
}

/// Which file is the recording of a transcript: the first that is a media file and has its name, in any
/// case; and there is none only where no file is one.
pub proof fn lemma_first_recording(files: Seq<PathView>, base: Seq<char>)
    ensures
        match first_recording(files, base) {
            Some(p) => exists|i: int|
                0 <= i < files.len() && #[trigger] files[i] == p && is_recording_of(p, base) && (
                forall|k: int| 0 <= k < i ==> !is_recording_of(#[trigger] files[k], base)),
            None => forall|i: int|
                0 <= i < files.len() ==> !is_recording_of(#[trigger] files[i], base),
        },
    decreases files.len(),
{
    if files.len() > 0 {
        if is_recording_of(files[0], base) {
            assert(files[0] == files[0]);
        } else {
            let rest = files.drop_first();
            lemma_first_recording(rest, base);
            match first_recording(files, base) {
                Some(p) => {
                    let i = choose|i: int|
                        0 <= i < rest.len() && #[trigger] rest[i] == p && is_recording_of(p, base)
                            && (forall|k: int|
                            0 <= k < i ==> !is_recording_of(#[trigger] rest[k], base));
                    assert(files[i + 1] == p);
                    assert forall|k: int| 0 <= k < i + 1 implies !is_recording_of(
                        #[trigger] files[k],
                        base,
                    ) by {
                        if k > 0 {
                            assert(files[k] == rest[k - 1]);
                        }
                    }
                },
                None => {
                    assert forall|i: int| 0 <= i < files.len() implies !is_recording_of(
                        #[trigger] files[i],
                        base,
                    ) by {
                        if i > 0 {
                            assert(files[i] == rest[i - 1]);
                        }
                    }
                },
            }
        }
    }
}

/// A media file of the name `a` is a recording of a transcript of that name, whatever the case of the
/// name and of the extension; a file of another name or with another extension is none.
pub proof fn lemma_is_recording(p: PathView, a: Seq<char>, e: Seq<char>, base: Seq<char>)
    requires
        p.name == a + "."@ + e,
        a.len() > 0,
        !e.contains('.'),
    ensures
        is_recording_of(p, base) <==> lowered(a) == lowered(base) && is_media_extension(e),
        lowered(e) == lowered("wav"@) || lowered(e) == lowered("mp3"@) || lowered(e) == lowered("m4a"@)
            || lowered(e) == lowered("mp4"@) || lowered(e) == lowered("mkv"@) || lowered(e)
            == lowered("flac"@) || lowered(e) == lowered("ogg"@) || lowered(e) == lowered("opus"@)
            || lowered(e) == lowered("aac"@) || lowered(e) == lowered("wma"@) || lowered(e)
            == lowered("webm"@) || lowered(e) == lowered("mov"@) || lowered(e) == lowered("aiff"@)
            || lowered(e) == lowered("aif"@) <==> is_media_extension(e),
{
    lemma_split_name(a, e);
    let all = media_extensions();
    assert(all[0] == "wav" && all[1] == "mp3" && all[2] == "m4a" && all[3] == "mp4" && all[4]
        == "mkv" && all[5] == "flac" && all[6] == "ogg" && all[7] == "opus" && all[8] == "aac"
        && all[9] == "wma" && all[10] == "webm" && all[11] == "mov" && all[12] == "aiff" && all[13]
        == "aif");
    if is_media_extension(e) {
        let i = choose|i: int|
            0 <= i < media_extensions().len() && lowered(e) == lowered(
                (#[trigger] media_extensions()[i])@,
            );
        assert(0 <= i < 14);
    }
}

/// Of texts that differ only in case the first stays, as it is written: what is added behind others
/// neither displaces nor changes them.
pub proof fn lemma_deduped_keeps_first(first: Seq<Seq<char>>, later: Seq<Seq<char>>)
    ensures
        deduped(first).is_prefix_of(deduped(first + later)),
    decreases later.len(),
{
    if later.len() == 0 {
        assert(first + later =~= first);
    } else {
        lemma_deduped_keeps_first(first, later.drop_last());
        assert((first + later).drop_last() =~= first + later.drop_last());
        let before = deduped(first + later.drop_last());
        let all = deduped(first + later);
        assert(all.take(before.len() as int) =~= before);
        assert(deduped(first).is_prefix_of(all));
    }
}

/// When two paths are the same file for playback: on Windows where they agree but for the case of ASCII
/// letters, elsewhere only where they are written alike.
pub proof fn lemma_same_playback_path(a: Seq<char>, b: Seq<char>)
    ensures
        same_playback_path(Platform::Windows, a, b) <==> lowered(a) == lowered(b),
        same_playback_path(Platform::MacOs, a, b) <==> a == b,
        same_playback_path(Platform::Linux, a, b) <==> a == b,
        same_playback_path(Platform::Other, a, b) <==> a == b,
{
}

} // verus!
