//! The models that can be downloaded, and which of them is selected.
use crate::devices::{first_where, lemma_first_where};
use crate::path_text::{
    as_folder, base_len, is_mark, is_plain_name, join_path, joined_path, last_name,
    lemma_name_of_joined, parent_of, path_name, path_parent, paths_equal, same_path, usual_marks,
};
use crate::paths::{file_path_in, file_path_of, Platform};
use crate::settings::AppSettings;
use crate::sizes::{human_model_size, size_text};
use crate::text::{
    cat4, eq_ignore_ascii_case, has_suffix, is_white, lowered, stripped, trim, trimmed_start, CharClass,
};
use vstd::prelude::*;
use vstd::string::*;

verus! {

/// The file of the diarization model.
pub const SORTFORMER_MODEL_FILE: &'static str = "diar_streaming_sortformer_4spk-v2.1.gguf";

/// Where the diarization model is downloaded from.
pub const DIARIZATION_MODEL_URL: &'static str = "https://huggingface.co/openresearchtools/diar_streaming_sortformer_4spk-v2.1-gguf/resolve/main/diar_streaming_sortformer_4spk-v2.1.gguf?download=true";

/// The repository of the diarization model.
pub const DIARIZATION_REPO: &'static str = "https://huggingface.co/openresearchtools/diar_streaming_sortformer_4spk-v2.1-gguf";

/// The repository of the models for live transcription.
pub const LIVE_TRANSCRIPTION_REPO_URL: &'static str = "https://huggingface.co/openresearchtools/Voxtral-Mini-4B-Realtime-2602";

/// The repository of the language models.
pub const CHAT_REPO_URL: &'static str = "https://huggingface.co/openresearchtools/Qwen3.5-9B-GGUF";

/// How large the diarization model is.
pub const DIARIZATION_MODEL_SIZE_BYTES: u64 = 471_107_712;

/// A transcription model.
#[derive(Debug, Clone, Copy)]
pub struct WhisperModelSpec {
    pub label: &'static str,
    pub file_name: &'static str,
    pub url: &'static str,
    pub size_bytes: u64,
    pub repo_label: &'static str,
    pub repo_url: &'static str,
}

/// A model for live transcription.
#[derive(Debug, Clone, Copy)]
pub struct LiveModelSpec {
    pub label: &'static str,
    pub file_name: &'static str,
    pub url: &'static str,
    pub size_bytes: u64,
}

/// A language model for chat.
#[derive(Debug, Clone, Copy)]
pub struct ChatModelSpec {
    pub label: &'static str,
    pub file_name: &'static str,
    pub url: &'static str,
    pub size_bytes: u64,
}

/// The transcription models that can be downloaded; the first is recommended.
pub open spec fn whisper_catalog() -> Seq<WhisperModelSpec> {
    seq![
        WhisperModelSpec {
            label: "Whisper Large v3 Turbo (Recommended)",
            file_name: "whisper-large-v3-turbo-GGML.bin",
            url: "https://huggingface.co/openresearchtools/whisper-large-v3-turbo-GGML/resolve/main/whisper-large-v3-turbo-GGML.bin?download=true",
            size_bytes: 1_624_555_275,
            repo_label: "openresearchtools/whisper-large-v3-turbo-GGML",
            repo_url: "https://huggingface.co/openresearchtools/whisper-large-v3-turbo-GGML",
        },
        WhisperModelSpec {
            label: "Whisper Large v3",
            file_name: "whisper-large-v3-GGML.bin",
            url: "https://huggingface.co/openresearchtools/whisper-large-v3-GGML/resolve/main/whisper-large-v3-GGML.bin?download=true",
            size_bytes: 3_095_033_483,
            repo_label: "openresearchtools/whisper-large-v3-GGML",
            repo_url: "https://huggingface.co/openresearchtools/whisper-large-v3-GGML",
        },
    ]
}

/// The transcription models that can be downloaded; the first is recommended.
pub fn whisper_models() -> (r: Vec<WhisperModelSpec>)
    ensures
        r@ == whisper_catalog(),
{
    let r: Vec<WhisperModelSpec> =
        vec![
        WhisperModelSpec {
            label: "Whisper Large v3 Turbo (Recommended)",
            file_name: "whisper-large-v3-turbo-GGML.bin",
            url: "https://huggingface.co/openresearchtools/whisper-large-v3-turbo-GGML/resolve/main/whisper-large-v3-turbo-GGML.bin?download=true",
            size_bytes: 1_624_555_275,
            repo_label: "openresearchtools/whisper-large-v3-turbo-GGML",
            repo_url: "https://huggingface.co/openresearchtools/whisper-large-v3-turbo-GGML",
        },
        WhisperModelSpec {
            label: "Whisper Large v3",
            file_name: "whisper-large-v3-GGML.bin",
            url: "https://huggingface.co/openresearchtools/whisper-large-v3-GGML/resolve/main/whisper-large-v3-GGML.bin?download=true",
            size_bytes: 3_095_033_483,
            repo_label: "openresearchtools/whisper-large-v3-GGML",
            repo_url: "https://huggingface.co/openresearchtools/whisper-large-v3-GGML",
        },
    ];
    assert(r@ =~= whisper_catalog());
    r
}

/// The models for live transcription that can be downloaded; the first is recommended.
pub open spec fn live_catalog() -> Seq<LiveModelSpec> {
    seq![
        LiveModelSpec {
            label: "Voxtral Mini 4B Realtime Q4_0 (Recommended)",
            file_name: "voxtral-mini-4b-realtime-q4_0.gguf",
            url: "https://huggingface.co/openresearchtools/Voxtral-Mini-4B-Realtime-2602/resolve/main/voxtral-mini-4b-realtime-q4_0.gguf?download=true",
            size_bytes: 2_503_688_320,
        },
        LiveModelSpec {
            label: "Voxtral Mini 4B Realtime F16",
            file_name: "voxtral-mini-4b-realtime-f16.gguf",
            url: "https://huggingface.co/openresearchtools/Voxtral-Mini-4B-Realtime-2602/resolve/main/voxtral-mini-4b-realtime-f16.gguf?download=true",
            size_bytes: 8_862_916_736,
        },
        LiveModelSpec {
            label: "Voxtral Mini 4B Realtime Q8_0",
            file_name: "voxtral-mini-4b-realtime-q8_0.gguf",
            url: "https://huggingface.co/openresearchtools/Voxtral-Mini-4B-Realtime-2602/resolve/main/voxtral-mini-4b-realtime-q8_0.gguf?download=true",
            size_bytes: 4_715_593_856,
        },
    ]
}

/// The models for live transcription that can be downloaded; the first is recommended.
pub fn live_models() -> (r: Vec<LiveModelSpec>)
    ensures
        r@ == live_catalog(),
{
    let r: Vec<LiveModelSpec> =
        vec![
        LiveModelSpec {
            label: "Voxtral Mini 4B Realtime Q4_0 (Recommended)",
            file_name: "voxtral-mini-4b-realtime-q4_0.gguf",
            url: "https://huggingface.co/openresearchtools/Voxtral-Mini-4B-Realtime-2602/resolve/main/voxtral-mini-4b-realtime-q4_0.gguf?download=true",
            size_bytes: 2_503_688_320,
        },
        LiveModelSpec {
            label: "Voxtral Mini 4B Realtime F16",
            file_name: "voxtral-mini-4b-realtime-f16.gguf",
            url: "https://huggingface.co/openresearchtools/Voxtral-Mini-4B-Realtime-2602/resolve/main/voxtral-mini-4b-realtime-f16.gguf?download=true",
            size_bytes: 8_862_916_736,
        },
        LiveModelSpec {
            label: "Voxtral Mini 4B Realtime Q8_0",
            file_name: "voxtral-mini-4b-realtime-q8_0.gguf",
            url: "https://huggingface.co/openresearchtools/Voxtral-Mini-4B-Realtime-2602/resolve/main/voxtral-mini-4b-realtime-q8_0.gguf?download=true",
            size_bytes: 4_715_593_856,
        },
    ];
    assert(r@ =~= live_catalog());
    r
}

/// The language models for chat that can be downloaded; the first is recommended.
pub open spec fn chat_catalog() -> Seq<ChatModelSpec> {
    seq![
        ChatModelSpec {
            label: "Qwen 3.5 9B Q4_K_M (Recommended)",
            file_name: "Qwen3.5-9B-Q4_K_M.gguf",
            url: "https://huggingface.co/openresearchtools/Qwen3.5-9B-GGUF/resolve/main/Qwen3.5-9B-Q4_K_M.gguf?download=true",
            size_bytes: 5_629_109_056,
        },
        ChatModelSpec {
            label: "Qwen 3.5 9B Q8_0",
            file_name: "Qwen3.5-9B-Q8_0.gguf",
            url: "https://huggingface.co/openresearchtools/Qwen3.5-9B-GGUF/resolve/main/Qwen3.5-9B-Q8_0.gguf?download=true",
            size_bytes: 9_527_501_632,
        },
    ]
}

/// The language models for chat that can be downloaded; the first is recommended.
pub fn chat_models() -> (r: Vec<ChatModelSpec>)
    ensures
        r@ == chat_catalog(),
{
    let r: Vec<ChatModelSpec> =
        vec![
        ChatModelSpec {
            label: "Qwen 3.5 9B Q4_K_M (Recommended)",
            file_name: "Qwen3.5-9B-Q4_K_M.gguf",
            url: "https://huggingface.co/openresearchtools/Qwen3.5-9B-GGUF/resolve/main/Qwen3.5-9B-Q4_K_M.gguf?download=true",
            size_bytes: 5_629_109_056,
        },
        ChatModelSpec {
            label: "Qwen 3.5 9B Q8_0",
            file_name: "Qwen3.5-9B-Q8_0.gguf",
            url: "https://huggingface.co/openresearchtools/Qwen3.5-9B-GGUF/resolve/main/Qwen3.5-9B-Q8_0.gguf?download=true",
            size_bytes: 9_527_501_632,
        },
    ];
    assert(r@ =~= chat_catalog());
    r
}

/// The files of the transcription models.
pub open spec fn whisper_files() -> Seq<Seq<char>> {
    Seq::new(whisper_catalog().len(), |i: int| whisper_catalog()[i].file_name@)
}

/// The files of the live models.
pub open spec fn live_files() -> Seq<Seq<char>> {
    Seq::new(live_catalog().len(), |i: int| live_catalog()[i].file_name@)
}

/// The files of the chat models.
pub open spec fn chat_files() -> Seq<Seq<char>> {
    Seq::new(chat_catalog().len(), |i: int| chat_catalog()[i].file_name@)
}

/// Which of the files a name is, but for case; their number where it is none of them.
pub open spec fn file_pos(files: Seq<Seq<char>>, name: Seq<char>) -> nat {
    first_where(files, |f: Seq<char>| lowered(f) == lowered(name))
}

/// Which of the files a name is, but for case; their number where it is none of them.
fn find_file(files: &Vec<&'static str>, name: &str) -> (r: usize)
    ensures
        r == file_pos(Seq::new(files@.len(), |i: int| files@[i]@), name@),
        r <= files@.len(),
{
    let ghost all = Seq::new(files@.len(), |i: int| files@[i]@);
    let ghost want = name@;
    let ghost p = |f: Seq<char>| lowered(f) == lowered(want);
    let mut i: usize = 0;
    while i < files.len()
        invariant
            i <= files@.len(),
            want == name@,
            all == Seq::new(files@.len(), |i: int| files@[i]@),
            p == (|f: Seq<char>| lowered(f) == lowered(want)),
            forall|k: int| 0 <= k < i ==> !p(#[trigger] all[k]),
        decreases files@.len() - i,
    {
        assert(all[i as int] == files@[i as int]@);
        if eq_ignore_ascii_case(files[i], name) {
            proof {
                lemma_first_where(all, p, i as int);
            }
            return i;
        }
        i += 1;
    }
    proof {
        lemma_first_where(all, p, i as int);
    }
    i
}

/// Which model a path selects: the one whose file the path names, else the first.
pub open spec fn selected_model(files: Seq<Seq<char>>, platform: Platform, path: Seq<char>) -> nat {
    let at = file_pos(files, last_name(platform, path));
    if stripped(path).len() == 0 || at >= files.len() {
        0
    } else {
        at
    }
}

/// A text that ends in something other than white space is not blank.
proof fn lemma_not_blank(s: Seq<char>)
    requires
        s.len() > 0,
        !is_white(s.last()),
    ensures
        stripped(s).len() > 0,
        trimmed_start(s, CharClass::White).len() > 0,
        trimmed_start(s, CharClass::White).last() == s.last(),
    decreases s.len(),
{
    if is_white(s[0]) {
        assert(s.drop_first().last() == s.last());
        lemma_not_blank(s.drop_first());
    }
}

/// Whether the files of models can be told apart by their names on every system: no two are the same
/// but for case, and each is a name of one component.
pub open spec fn can_be_told_apart(files: Seq<Seq<char>>) -> bool {
    &&& forall|i: int, j: int|
        0 <= i < j < files.len() ==> lowered(#[trigger] files[i]) != lowered(#[trigger] files[j])
    &&& forall|i: int|
        0 <= i < files.len() ==> {
            &&& is_plain_name(Platform::Windows, #[trigger] files[i])
            &&& !is_white(files[i].last())
        }
}

/// The model whose file lies in a folder is found again from the path of that file, unless its name
/// is read as part of the prefix (as behind the name of a server).
pub proof fn lemma_model_is_found_again(
    files: Seq<Seq<char>>,
    platform: Platform,
    folder: Seq<char>,
    i: int,
)
    requires
        can_be_told_apart(files),
        0 <= i < files.len(),
        base_len(platform, joined_path(platform, folder, files[i])) <= as_folder(
            platform,
            folder,
        ).len(),
    ensures
        selected_model(files, platform, joined_path(platform, folder, files[i])) == i,
{
    let name = files[i];
    let path = joined_path(platform, folder, name);
    assert(is_plain_name(Platform::Windows, name));
    assert forall|k: int| 0 <= k < name.len() implies !is_mark(
        usual_marks(platform),
        #[trigger] name[k],
    ) by {
        assert(!is_mark(usual_marks(Platform::Windows), name[k]));
    }
    lemma_name_of_joined(platform, folder, name);
    assert(path.last() == name.last());
    lemma_not_blank(path);
    lemma_first_where(files, |f: Seq<char>| lowered(f) == lowered(name), i);
}

/// The files of the models of each list can be told apart.
pub proof fn lemma_models_can_be_told_apart()
    ensures
        can_be_told_apart(whisper_files()),
        can_be_told_apart(live_files()),
        can_be_told_apart(chat_files()),
{
    reveal_strlit("whisper-large-v3-turbo-GGML.bin");
    reveal_strlit("whisper-large-v3-GGML.bin");
    reveal_strlit("voxtral-mini-4b-realtime-q4_0.gguf");
    reveal_strlit("voxtral-mini-4b-realtime-f16.gguf");
    reveal_strlit("voxtral-mini-4b-realtime-q8_0.gguf");
    reveal_strlit("Qwen3.5-9B-Q4_K_M.gguf");
    reveal_strlit("Qwen3.5-9B-Q8_0.gguf");
    reveal_strlit(".");
    let l = live_files();
    assert(lowered(l[0])[26] != lowered(l[2])[26]);
    assert(lowered(l[0]).len() != lowered(l[1]).len());
    assert(lowered(l[1]).len() != lowered(l[2]).len());
    let w = whisper_files();
    assert(lowered(w[0]).len() != lowered(w[1]).len());
    let c = chat_files();
    assert(lowered(c[0]).len() != lowered(c[1]).len());
}

/// What a model is called where it is chosen: with its size, and whether it is installed.
pub open spec fn model_label(label: Seq<char>, size: u64, installed: bool) -> Seq<char> {
    label + " ("@ + size_text(size as nat) + if installed {
        ") [installed]"@
    } else {
        ") [not installed]"@
    }
}

/// What a model is called where it is chosen.
fn combo_label(label: &str, size: u64, installed: bool) -> (r: String)
    ensures
        r@ == model_label(label@, size, installed),
{
    let amount: String = human_model_size(size);
    cat4(
        label,
        " (",
        amount.as_str(),
        if installed {
            ") [installed]"
        } else {
            ") [not installed]"
        },
    )
}

/// The first entry that is set.
fn first_set(flags: &Vec<bool>) -> (r: usize)
    ensures
        r == first_where(flags@, |b: bool| b),
        r <= flags@.len(),
{
    let ghost p = |b: bool| b;
    let mut i: usize = 0;
    while i < flags.len() && !flags[i]
        invariant
            i <= flags@.len(),
            p == (|b: bool| b),
            forall|k: int| 0 <= k < i ==> !p(#[trigger] flags@[k]),
        decreases flags@.len() - i,
    {
        i += 1;
    }
    proof {
        lemma_first_where(flags@, p, i as int);
    }
    i
}

/// Whether one of the first `count` entries is set.
pub open spec fn any_installed(installed: Seq<bool>, count: nat) -> bool {
    let at = first_where(installed, |b: bool| b);
    at < installed.len() && at < count
}

/// The files of the transcription models.
fn whisper_file_list() -> (r: Vec<&'static str>)
    ensures
        Seq::new(r@.len(), |i: int| r@[i]@) == whisper_files(),
{
    let models: Vec<WhisperModelSpec> = whisper_models();
    let mut out: Vec<&'static str> = Vec::new();
    let mut i: usize = 0;
    while i < models.len()
        invariant
            i <= models@.len(),
            models@ == whisper_catalog(),
            out@.len() == i,
            forall|k: int| 0 <= k < i ==> #[trigger] out@[k] == models@[k].file_name,
        decreases models@.len() - i,
    {
        out.push(models[i].file_name);
        i += 1;
    }
    assert(Seq::new(out@.len(), |i: int| out@[i]@) =~= whisper_files());
    out
}

/// Which transcription model a path selects: the one whose file the path names, else the first.
pub fn select_whisper_model_index(platform: Platform, whisper_model: &str) -> (r: usize)
    ensures
        r == selected_model(whisper_files(), platform, whisper_model@),
        r < whisper_catalog().len(),
{
    if trim(whisper_model).is_empty() {
        return 0;
    }
    let files: Vec<&'static str> = whisper_file_list();
    let name: String = path_name(platform, whisper_model);
    let at: usize = find_file(&files, name.as_str());
    assert(Seq::new(files@.len(), |i: int| files@[i]@).len() == files@.len());
    if at >= files.len() {
        0
    } else {
        at
    }
}

/// What a transcription model is called where it is chosen.
pub fn whisper_combo_label(spec: &WhisperModelSpec, installed: bool) -> (r: String)
    ensures
        r@ == model_label(spec.label@, spec.size_bytes, installed),
{
    combo_label(spec.label, spec.size_bytes, installed)
}

/// The first transcription model that is installed, given which are.
pub fn first_installed_whisper_model(installed: &Vec<bool>) -> (r: Option<WhisperModelSpec>)
    ensures
        ({
            let at = first_where(installed@, |b: bool| b);
            r == if at < installed@.len() && at < whisper_catalog().len() {
                Some(whisper_catalog()[at as int])
            } else {
                None
            }
        }),
{
    let models: Vec<WhisperModelSpec> = whisper_models();
    let at: usize = first_set(installed);
    if at < installed.len() && at < models.len() {
        Some(models[at])
    } else {
        None
    }
}

/// Whether a transcription model is installed, given which are.
pub fn has_any_installed_whisper_model(installed: &Vec<bool>) -> (r: bool)
    ensures
        r == any_installed(installed@, whisper_catalog().len()),
{
    first_installed_whisper_model(installed).is_some()
}

/// The files of the live models.
fn live_file_list() -> (r: Vec<&'static str>)
    ensures
        Seq::new(r@.len(), |i: int| r@[i]@) == live_files(),
{
    let models: Vec<LiveModelSpec> = live_models();
    let mut out: Vec<&'static str> = Vec::new();
    let mut i: usize = 0;
    while i < models.len()
        invariant
            i <= models@.len(),
            models@ == live_catalog(),
            out@.len() == i,
            forall|k: int| 0 <= k < i ==> #[trigger] out@[k] == models@[k].file_name,
        decreases models@.len() - i,
    {
        out.push(models[i].file_name);
        i += 1;
    }
    assert(Seq::new(out@.len(), |i: int| out@[i]@) =~= live_files());
    out
}

/// Which live model a path selects: the one whose file the path names, else the first.
pub fn select_live_model_index(platform: Platform, live_model: &str) -> (r: usize)
    ensures
        r == selected_model(live_files(), platform, live_model@),
        r < live_catalog().len(),
{
    if trim(live_model).is_empty() {
        return 0;
    }
    let files: Vec<&'static str> = live_file_list();
    let name: String = path_name(platform, live_model);
    let at: usize = find_file(&files, name.as_str());
    assert(Seq::new(files@.len(), |i: int| files@[i]@).len() == files@.len());
    if at >= files.len() {
        0
    } else {
        at
    }
}

/// What a live model is called where it is chosen.
pub fn live_model_combo_label(spec: &LiveModelSpec, installed: bool) -> (r: String)
    ensures
        r@ == model_label(spec.label@, spec.size_bytes, installed),
{
    combo_label(spec.label, spec.size_bytes, installed)
}

/// The first live model that is installed, given which are.
pub fn first_installed_live_model(installed: &Vec<bool>) -> (r: Option<LiveModelSpec>)
    ensures
        ({
            let at = first_where(installed@, |b: bool| b);
            r == if at < installed@.len() && at < live_catalog().len() {
                Some(live_catalog()[at as int])
            } else {
                None
            }
        }),
{
    let models: Vec<LiveModelSpec> = live_models();
    let at: usize = first_set(installed);
    if at < installed.len() && at < models.len() {
        Some(models[at])
    } else {
        None
    }
}

/// Whether a live model is installed, given which are.
pub fn has_any_installed_live_model(installed: &Vec<bool>) -> (r: bool)
    ensures
        r == any_installed(installed@, live_catalog().len()),
{
    first_installed_live_model(installed).is_some()
}

/// The files of the chat models.
fn chat_file_list() -> (r: Vec<&'static str>)
    ensures
        Seq::new(r@.len(), |i: int| r@[i]@) == chat_files(),
{
    let models: Vec<ChatModelSpec> = chat_models();
    let mut out: Vec<&'static str> = Vec::new();
    let mut i: usize = 0;
    while i < models.len()
        invariant
            i <= models@.len(),
            models@ == chat_catalog(),
            out@.len() == i,
            forall|k: int| 0 <= k < i ==> #[trigger] out@[k] == models@[k].file_name,
        decreases models@.len() - i,
    {
        out.push(models[i].file_name);
        i += 1;
    }
    assert(Seq::new(out@.len(), |i: int| out@[i]@) =~= chat_files());
    out
}

/// Which chat model a path selects: the one whose file the path names, else the first.
pub fn select_chat_model_index(platform: Platform, chat_model: &str) -> (r: usize)
    ensures
        r == selected_model(chat_files(), platform, chat_model@),
        r < chat_catalog().len(),
{
    if trim(chat_model).is_empty() {
        return 0;
    }
    let files: Vec<&'static str> = chat_file_list();
    let name: String = path_name(platform, chat_model);
    let at: usize = find_file(&files, name.as_str());
    assert(Seq::new(files@.len(), |i: int| files@[i]@).len() == files@.len());
    if at >= files.len() {
        0
    } else {
        at
    }
}

/// What a chat model is called where it is chosen.
pub fn chat_model_combo_label(spec: &ChatModelSpec, installed: bool) -> (r: String)
    ensures
        r@ == model_label(spec.label@, spec.size_bytes, installed),
{
    combo_label(spec.label, spec.size_bytes, installed)
}

/// The first chat model that is installed, given which are.
pub fn first_installed_chat_model(installed: &Vec<bool>) -> (r: Option<ChatModelSpec>)
    ensures
        ({
            let at = first_where(installed@, |b: bool| b);
            r == if at < installed@.len() && at < chat_catalog().len() {
                Some(chat_catalog()[at as int])
            } else {
                None
            }
        }),
{
    let models: Vec<ChatModelSpec> = chat_models();
    let at: usize = first_set(installed);
    if at < installed.len() && at < models.len() {
        Some(models[at])
    } else {
        None
    }
}

/// Whether a chat model is installed, given which are.
pub fn has_any_installed_chat_model(installed: &Vec<bool>) -> (r: bool)
    ensures
        r == any_installed(installed@, chat_catalog().len()),
{
    first_installed_chat_model(installed).is_some()
}

/// The label of the transcription model whose file a path names.
pub fn whisper_label_from_path(platform: Platform, path: &str) -> (r: Option<&'static str>)
    ensures
        ({
            let at = file_pos(whisper_files(), last_name(platform, path@));
            r == if at < whisper_catalog().len() {
                Some(whisper_catalog()[at as int].label)
            } else {
                None
            }
        }),
{
    let models: Vec<WhisperModelSpec> = whisper_models();
    let files: Vec<&'static str> = whisper_file_list();
    let name: String = path_name(platform, path);
    let at: usize = find_file(&files, name.as_str());
    assert(Seq::new(files@.len(), |i: int| files@[i]@).len() == files@.len());
    if at < models.len() {
        Some(models[at].label)
    } else {
        None
    }
}

/// The folders in which the program keeps its files.
#[derive(Debug, Clone)]
pub struct AppPaths {
    pub data_dir: String,
    pub models_dir: String,
    pub live_models_dir: String,
    pub chat_models_dir: String,
    pub diarization_models_dir: String,
}

/// Where a transcription model is kept, given the folder of its repository.
pub fn whisper_model_dest_path(platform: Platform, repo_dir: &str, file_name: &str) -> (r: String)
    ensures
        r@ == joined_path(platform, repo_dir@, file_name@),
{
    join_path(platform, repo_dir, file_name)
}

/// Where a model for live transcription is kept.
pub fn live_model_dest_path(platform: Platform, paths: &AppPaths, file_name: &str) -> (r: String)
    ensures
        r@ == joined_path(platform, paths.live_models_dir@, file_name@),
{
    join_path(platform, paths.live_models_dir.as_str(), file_name)
}

/// Where a language model for chat is kept.
pub fn chat_model_dest_path(platform: Platform, paths: &AppPaths, file_name: &str) -> (r: String)
    ensures
        r@ == joined_path(platform, paths.chat_models_dir@, file_name@),
{
    join_path(platform, paths.chat_models_dir.as_str(), file_name)
}

/// The path of the diarization model: in the folder that the settings name, else in the default
/// folder.
pub fn sortformer_model_path_from_settings(
    platform: Platform,
    default_dir: &str,
    settings: &AppSettings,
) -> (r: String)
    ensures
        r@ == joined_path(
            platform,
            if stripped(settings@.diarization_models_dir).len() == 0 {
                default_dir@
            } else {
                stripped(settings@.diarization_models_dir)
            },
            SORTFORMER_MODEL_FILE@,
        ),
{
    let dir: &str = trim(settings.diarization_models_dir.as_str());
    if dir.is_empty() {
        join_path(platform, default_dir, SORTFORMER_MODEL_FILE)
    } else {
        join_path(platform, dir, SORTFORMER_MODEL_FILE)
    }
}

/// The files of the diarization model that are missing, given whether it is there.
pub fn missing_diarization_files(model_exists: bool) -> (r: Vec<&'static str>)
    ensures
        r@ == (if model_exists {
            Seq::empty()
        } else {
            seq![SORTFORMER_MODEL_FILE]
        }),
{
    let mut r: Vec<&'static str> = Vec::new();
    if !model_exists {
        r.push(SORTFORMER_MODEL_FILE);
    }
    assert(r@ =~= (if model_exists {
        Seq::empty()
    } else {
        seq![SORTFORMER_MODEL_FILE]
    }));
    r
}

/// Whether a path lies directly in a folder.
pub open spec fn lies_in(platform: Platform, path: Seq<char>, folder: Seq<char>) -> bool {
    match parent_of(platform, path) {
        Some(own) => same_path(platform, own, folder),
        None => false,
    }
}

/// Whether a path lies directly in the folder where the program keeps language models.
pub fn is_managed_chat_model_path(platform: Platform, paths: &AppPaths, raw: &str) -> (r: bool)
    ensures
        r == lies_in(platform, stripped(raw@), paths.chat_models_dir@),
{
    match path_parent(platform, trim(raw)) {
        Some(folder) => paths_equal(platform, folder.as_str(), paths.chat_models_dir.as_str()),
        None => false,
    }
}

/// A folder of the model store, and whether a file of the name that is looked for is in it.
pub struct StoreFolder {
    pub dir: String,
    pub holds_file: bool,
}

/// The path of the file in the first folder that holds it.
pub open spec fn first_in_store(
    platform: Platform,
    folders: Seq<StoreFolder>,
    name: Seq<char>,
) -> Option<Seq<char>>
    decreases folders.len(),
{
    if folders.len() == 0 {
        None
    } else if folders[0].holds_file {
        Some(joined_path(platform, folders[0].dir@, name))
    } else {
        first_in_store(platform, folders.drop_first(), name)
    }
}

/// The path of the language model that is set: the path itself where it exists, else that of the
/// file of the same name in the first folder of the store that holds it.
pub open spec fn stored_model(
    platform: Platform,
    path: Seq<char>,
    exists_there: bool,
    folders: Seq<StoreFolder>,
) -> Option<Seq<char>> {
    if path.len() == 0 {
        None
    } else if exists_there {
        Some(path)
    } else {
        match file_path_in(platform, path) {
            Some(p) => first_in_store(platform, folders, p.name),
            None => None,
        }
    }
}

/// The path of the language model that is set: the path itself where it exists, else that of the
/// file of the same name in the first folder of the store that holds it.
pub fn resolve_chat_model_path_from_store(
    platform: Platform,
    configured_path: &str,
    configured_exists: bool,
    folders: &Vec<StoreFolder>,
) -> (r: Option<String>)
    ensures
        match r {
            Some(p) => stored_model(
                platform,
                stripped(configured_path@),
                configured_exists,
                folders@,
            ) == Some(p@),
            None => stored_model(
                platform,
                stripped(configured_path@),
                configured_exists,
                folders@,
            ) is None,
        },
{
    let path: &str = trim(configured_path);
    if path.is_empty() {
        return None;
    }
    if configured_exists {
        return Some(path.to_owned());
    }
    let name: String = match file_path_of(platform, path) {
        Some(p) => p.name,
        None => {
            return None;
        },
    };
    let mut i: usize = 0;
    assert(folders@.skip(0) =~= folders@);
    while i < folders.len()
        invariant
            i <= folders@.len(),
            stored_model(platform, stripped(configured_path@), configured_exists, folders@)
                == first_in_store(platform, folders@.skip(i as int), name@),
        decreases folders@.len() - i,
    {
        assert(folders@.skip(i as int)[0] == folders@[i as int]);
        assert(folders@.skip(i as int).drop_first() =~= folders@.skip(i + 1));
        if folders[i].holds_file {
            return Some(join_path(platform, folders[i].dir.as_str(), name.as_str()));
        }
        i += 1;
    }
    None
}

/// Each whisper model is downloaded from its own repository, from the file that it is stored under.
pub proof fn lemma_whisper_is_loaded_from_its_url(i: int)
    requires
        0 <= i < whisper_catalog().len(),
    ensures
        has_suffix(
            whisper_catalog()[i].url@,
            "/"@ + whisper_catalog()[i].file_name@ + "?download=true"@,
        ),
        whisper_catalog()[i].size_bytes > 0,
        has_suffix(whisper_catalog()[i].repo_url@, "/"@ + whisper_catalog()[i].repo_label@),
        whisper_catalog()[i].repo_url@.is_prefix_of(whisper_catalog()[i].url@),
{
    reveal_strlit("?download=true");
    reveal_strlit("/");
    reveal_strlit("whisper-large-v3-turbo-GGML.bin");
    reveal_strlit("https://huggingface.co/openresearchtools/whisper-large-v3-turbo-GGML/resolve/main/whisper-large-v3-turbo-GGML.bin?download=true");
    reveal_strlit("whisper-large-v3-GGML.bin");
    reveal_strlit("https://huggingface.co/openresearchtools/whisper-large-v3-GGML/resolve/main/whisper-large-v3-GGML.bin?download=true");
    reveal_strlit("openresearchtools/whisper-large-v3-turbo-GGML");
    reveal_strlit("https://huggingface.co/openresearchtools/whisper-large-v3-turbo-GGML");
    reveal_strlit("openresearchtools/whisper-large-v3-GGML");
    reveal_strlit("https://huggingface.co/openresearchtools/whisper-large-v3-GGML");
    if i == 0 {
        let url = "https://huggingface.co/openresearchtools/whisper-large-v3-turbo-GGML/resolve/main/whisper-large-v3-turbo-GGML.bin?download=true"@;
        let tail = "/"@ + "whisper-large-v3-turbo-GGML.bin"@ + "?download=true"@;
        assert(url.subrange(url.len() - tail.len(), url.len() as int) =~= tail);
        let repo = "https://huggingface.co/openresearchtools/whisper-large-v3-turbo-GGML"@;
        let label = "/"@ + "openresearchtools/whisper-large-v3-turbo-GGML"@;
        assert(repo.subrange(repo.len() - label.len(), repo.len() as int) =~= label);
        assert(url.take(repo.len() as int) =~= repo);
    }
    if i == 1 {
        let url = "https://huggingface.co/openresearchtools/whisper-large-v3-GGML/resolve/main/whisper-large-v3-GGML.bin?download=true"@;
        let tail = "/"@ + "whisper-large-v3-GGML.bin"@ + "?download=true"@;
        assert(url.subrange(url.len() - tail.len(), url.len() as int) =~= tail);
        let repo = "https://huggingface.co/openresearchtools/whisper-large-v3-GGML"@;
        let label = "/"@ + "openresearchtools/whisper-large-v3-GGML"@;
        assert(repo.subrange(repo.len() - label.len(), repo.len() as int) =~= label);
        assert(url.take(repo.len() as int) =~= repo);
    }
}

/// Each live model is downloaded from the file that it is stored under.
pub proof fn lemma_live_is_loaded_from_its_url(i: int)
    requires
        0 <= i < live_catalog().len(),
    ensures
        has_suffix(
            live_catalog()[i].url@,
            "/"@ + live_catalog()[i].file_name@ + "?download=true"@,
        ),
        live_catalog()[i].size_bytes > 0,
{
    reveal_strlit("?download=true");
    reveal_strlit("/");
    reveal_strlit("voxtral-mini-4b-realtime-q4_0.gguf");
    reveal_strlit("https://huggingface.co/openresearchtools/Voxtral-Mini-4B-Realtime-2602/resolve/main/voxtral-mini-4b-realtime-q4_0.gguf?download=true");
    reveal_strlit("voxtral-mini-4b-realtime-f16.gguf");
    reveal_strlit("https://huggingface.co/openresearchtools/Voxtral-Mini-4B-Realtime-2602/resolve/main/voxtral-mini-4b-realtime-f16.gguf?download=true");
    reveal_strlit("voxtral-mini-4b-realtime-q8_0.gguf");
    reveal_strlit("https://huggingface.co/openresearchtools/Voxtral-Mini-4B-Realtime-2602/resolve/main/voxtral-mini-4b-realtime-q8_0.gguf?download=true");
    if i == 0 {
        let url = "https://huggingface.co/openresearchtools/Voxtral-Mini-4B-Realtime-2602/resolve/main/voxtral-mini-4b-realtime-q4_0.gguf?download=true"@;
        let tail = "/"@ + "voxtral-mini-4b-realtime-q4_0.gguf"@ + "?download=true"@;
        assert(url.subrange(url.len() - tail.len(), url.len() as int) =~= tail);
    }
    if i == 1 {
        let url = "https://huggingface.co/openresearchtools/Voxtral-Mini-4B-Realtime-2602/resolve/main/voxtral-mini-4b-realtime-f16.gguf?download=true"@;
        let tail = "/"@ + "voxtral-mini-4b-realtime-f16.gguf"@ + "?download=true"@;
        assert(url.subrange(url.len() - tail.len(), url.len() as int) =~= tail);
    }
    if i == 2 {
        let url = "https://huggingface.co/openresearchtools/Voxtral-Mini-4B-Realtime-2602/resolve/main/voxtral-mini-4b-realtime-q8_0.gguf?download=true"@;
        let tail = "/"@ + "voxtral-mini-4b-realtime-q8_0.gguf"@ + "?download=true"@;
        assert(url.subrange(url.len() - tail.len(), url.len() as int) =~= tail);
    }
}

/// Each chat model is downloaded from the file that it is stored under.
pub proof fn lemma_chat_is_loaded_from_its_url(i: int)
    requires
        0 <= i < chat_catalog().len(),
    ensures
        has_suffix(
            chat_catalog()[i].url@,
            "/"@ + chat_catalog()[i].file_name@ + "?download=true"@,
        ),
        chat_catalog()[i].size_bytes > 0,
{
    reveal_strlit("?download=true");
    reveal_strlit("/");
    reveal_strlit("Qwen3.5-9B-Q4_K_M.gguf");
    reveal_strlit("https://huggingface.co/openresearchtools/Qwen3.5-9B-GGUF/resolve/main/Qwen3.5-9B-Q4_K_M.gguf?download=true");
    reveal_strlit("Qwen3.5-9B-Q8_0.gguf");
    reveal_strlit("https://huggingface.co/openresearchtools/Qwen3.5-9B-GGUF/resolve/main/Qwen3.5-9B-Q8_0.gguf?download=true");
    if i == 0 {
        let url = "https://huggingface.co/openresearchtools/Qwen3.5-9B-GGUF/resolve/main/Qwen3.5-9B-Q4_K_M.gguf?download=true"@;
        let tail = "/"@ + "Qwen3.5-9B-Q4_K_M.gguf"@ + "?download=true"@;
        assert(url.subrange(url.len() - tail.len(), url.len() as int) =~= tail);
    }
    if i == 1 {
        let url = "https://huggingface.co/openresearchtools/Qwen3.5-9B-GGUF/resolve/main/Qwen3.5-9B-Q8_0.gguf?download=true"@;
        let tail = "/"@ + "Qwen3.5-9B-Q8_0.gguf"@ + "?download=true"@;
        assert(url.subrange(url.len() - tail.len(), url.len() as int) =~= tail);
    }
}

/// Whether a model of a list is installed: where one of the first `count` marks says so.
pub proof fn lemma_any_installed(installed: Seq<bool>, count: nat)
    ensures
        any_installed(installed, count) <==> exists|i: int|
            0 <= i < installed.len() && i < count && #[trigger] installed[i],
{
    let p = |b: bool| b;
    lemma_installed_pos(installed);
    if exists|i: int| 0 <= i < installed.len() && i < count && #[trigger] installed[i] {
        let i = choose|i: int| 0 <= i < installed.len() && i < count && #[trigger] installed[i];
        assert(first_where(installed, p) <= i);
    }
    if any_installed(installed, count) {
        assert(installed[first_where(installed, p) as int]);
    }
}

/// Where the first mark stands that says that a model is installed.
proof fn lemma_installed_pos(installed: Seq<bool>)
    ensures
        first_where(installed, |b: bool| b) <= installed.len(),
        first_where(installed, |b: bool| b) < installed.len() ==> installed[first_where(
            installed,
            |b: bool| b,
        ) as int],
        forall|k: int| 0 <= k < first_where(installed, |b: bool| b) ==> !(#[trigger] installed[k]),
    decreases installed.len(),
{
    if installed.len() > 0 && !installed[0] {
        let rest = installed.drop_first();
        lemma_installed_pos(rest);
        assert forall|k: int| 0 <= k < first_where(installed, |b: bool| b) implies !(
        #[trigger] installed[k]) by {
            if k > 0 {
                assert(installed[k] == rest[k - 1]);
            }
        }
    }
}

/// Where a model is stored: a path that is there counts as it is; of one that is not there the file name
/// counts, in the first folder of the store that holds it; there is none where the path is empty, has no
/// file name, or no folder holds the file.
pub proof fn lemma_stored_model(
    platform: Platform,
    path: Seq<char>,
    folders: Seq<StoreFolder>,
    i: int,
)
    requires
        path.len() > 0,
        0 <= i < folders.len(),
        folders[i].holds_file,
        forall|k: int| 0 <= k < i ==> !(#[trigger] folders[k]).holds_file,
    ensures
        stored_model(platform, path, true, folders) == Some(path),
        file_path_in(platform, path) matches Some(p) ==> stored_model(
            platform,
            path,
            false,
            folders,
        ) == Some(joined_path(platform, folders[i].dir@, p.name)),
        file_path_in(platform, path) is None ==> stored_model(platform, path, false, folders) is None,
        stored_model(platform, Seq::empty(), true, folders) is None,
        stored_model(platform, path, false, Seq::empty()) is None,
{
    if let Some(p) = file_path_in(platform, path) {
        lemma_first_in_store(platform, folders, p.name, i);
    }
}

/// The first folder that holds a file is the one that is found.
proof fn lemma_first_in_store(
    platform: Platform,
    folders: Seq<StoreFolder>,
    name: Seq<char>,
    i: int,
)
    requires
        0 <= i < folders.len(),
        folders[i].holds_file,
        forall|k: int| 0 <= k < i ==> !(#[trigger] folders[k]).holds_file,
    ensures
        first_in_store(platform, folders, name) == Some(
            joined_path(platform, folders[i].dir@, name),
        ),
    decreases folders.len(),
{
    if i > 0 {
        let rest = folders.drop_first();
        assert(!folders[0].holds_file);
        assert forall|k: int| 0 <= k < i - 1 implies !(#[trigger] rest[k]).holds_file by {
            assert(rest[k] == folders[k + 1]);
        }
        assert(rest[i - 1] == folders[i]);
        lemma_first_in_store(platform, rest, name, i - 1);
    }
}

/// What a model is listed as: its label, its size and whether it is installed.
pub proof fn lemma_model_label(label: Seq<char>, size: u64)
    ensures
        model_label(label, size, true) == label + " ("@ + size_text(size as nat) + ") [installed]"@,
        model_label(label, size, false) == label + " ("@ + size_text(size as nat)
            + ") [not installed]"@,
        model_label(label, size, true) != model_label(label, size, false),
{
    reveal_strlit(") [installed]");
    reveal_strlit(") [not installed]");
    assert(model_label(label, size, true).len() != model_label(label, size, false).len());
}

} // verus!
