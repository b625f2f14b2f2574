//! The inference runtime: its folder, its files and its backends.
use crate::devices::{first_where, lemma_first_where};
use crate::path_text::{join_path, joined_path, last_name, path_name};
use crate::paths::{dedupe_paths, deduped, Platform};
use crate::settings::{AppSettings, SettingsView};
use crate::text::{
    begins_with, cat2, cat3, eq_ignore_ascii_case, finishes_with, has_suffix, join, joined, lowered,
    same_text, stands_at, stripped, to_ascii_lowercase, trim, views,
};
use vstd::prelude::*;
use vstd::string::*;

verus! {

/// The file of the bridge library.
#[verifier::allow_in_spec]
pub fn bridge_library_file_name(platform: Platform) -> &'static str
    returns
        (match platform {
            Platform::Windows => "llama-server-bridge.dll",
            Platform::MacOs => "libllama-server-bridge.dylib",
            _ => "libllama-server-bridge.so",
        }),
{
    match platform {
        Platform::Windows => "llama-server-bridge.dll",
        Platform::MacOs => "libllama-server-bridge.dylib",
        _ => "libllama-server-bridge.so",
    }
}

/// The file of the library that captures audio.
#[verifier::allow_in_spec]
pub fn audio_capture_library_file_name(platform: Platform) -> &'static str
    returns
        (match platform {
            Platform::Windows => "llama-server-audio.dll",
            Platform::MacOs => "libllama-server-audio.dylib",
            _ => "libllama-server-audio.so",
        }),
{
    match platform {
        Platform::Windows => "llama-server-audio.dll",
        Platform::MacOs => "libllama-server-audio.dylib",
        _ => "libllama-server-audio.so",
    }
}

/// The file of the script that unblocks an unsigned runtime.
#[verifier::allow_in_spec]
pub fn embedded_unsigned_runtime_script_file_name(platform: Platform) -> &'static str
    returns
        (match platform {
            Platform::Windows => "unblock-unsigned-runtime.ps1",
            _ => "unblock-unsigned-runtime.sh",
        }),
{
    match platform {
        Platform::Windows => "unblock-unsigned-runtime.ps1",
        _ => "unblock-unsigned-runtime.sh",
    }
}

/// The path that three names lead to from a folder.
pub open spec fn below(
    platform: Platform,
    folder: Seq<char>,
    a: Seq<char>,
    b: Seq<char>,
    c: Seq<char>,
) -> Seq<char> {
    joined_path(platform, joined_path(platform, joined_path(platform, folder, a), b), c)
}

/// Where the runtime keeps FFmpeg.
pub open spec fn ffmpeg_dir_of(platform: Platform, runtime_dir: Seq<char>) -> Seq<char> {
    below(
        platform,
        runtime_dir,
        "vendor"@,
        "ffmpeg"@,
        if platform is Windows {
            "bin"@
        } else {
            "lib"@
        },
    )
}

/// Where the runtime keeps FFmpeg.
pub fn ffmpeg_runtime_dir(platform: Platform, runtime_dir: &str) -> (r: String)
    ensures
        r@ == ffmpeg_dir_of(platform, runtime_dir@),
{
    let vendor: String = join_path(platform, runtime_dir, "vendor");
    let ffmpeg: String = join_path(platform, vendor.as_str(), "ffmpeg");
    match platform {
        Platform::Windows => join_path(platform, ffmpeg.as_str(), "bin"),
        _ => join_path(platform, ffmpeg.as_str(), "lib"),
    }
}

/// Whether one of the names begins with `prefix` and ends with `suffix`.
pub open spec fn has_affixed(names: Seq<Seq<char>>, prefix: Seq<char>, suffix: Seq<char>) -> bool {
    exists|i: int|
        0 <= i < names.len() && stands_at(#[trigger] names[i], prefix, 0) && has_suffix(
            names[i],
            suffix,
        )
}

/// Whether a folder holds a file whose name begins with `prefix` and ends with `suffix`, given the
/// names in it.
pub fn has_prefixed_file(names: &Vec<String>, prefix: &str, suffix: &str) -> (r: bool)
    ensures
        r == has_affixed(views(names@), prefix@, suffix@),
{
    let mut i: usize = 0;
    while i < names.len()
        invariant
            i <= names@.len(),
            forall|k: int|
                0 <= k < i ==> !(stands_at(#[trigger] views(names@)[k], prefix@, 0) && has_suffix(
                    views(names@)[k],
                    suffix@,
                )),
        decreases names@.len() - i,
    {
        assert(views(names@)[i as int] == names@[i as int]@);
        if begins_with(names[i].as_str(), prefix) && finishes_with(names[i].as_str(), suffix) {
            return true;
        }
        i += 1;
    }
    false
}

/// The names in small letters.
pub open spec fn lowered_all(names: Seq<Seq<char>>) -> Seq<Seq<char>> {
    Seq::new(names.len(), |i: int| lowered(names[i]))
}

/// Whether a folder holds a file whose name, but for case, begins with `prefix` and ends with
/// `suffix`, given the names in it.
pub fn has_prefixed_file_case_insensitive(names: &Vec<String>, prefix: &str, suffix: &str) -> (r:
    bool)
    ensures
        r == has_affixed(lowered_all(views(names@)), lowered(prefix@), lowered(suffix@)),
{
    let mut folded: Vec<String> = Vec::new();
    let mut i: usize = 0;
    while i < names.len()
        invariant
            i <= names@.len(),
            folded@.len() == i,
            forall|k: int| 0 <= k < i ==> #[trigger] folded@[k]@ == lowered(names@[k]@),
        decreases names@.len() - i,
    {
        folded.push(to_ascii_lowercase(names[i].as_str()));
        i += 1;
    }
    assert(views(folded@) =~= lowered_all(views(names@)));
    let prefix_low: String = to_ascii_lowercase(prefix);
    let suffix_low: String = to_ascii_lowercase(suffix);
    has_prefixed_file(&folded, prefix_low.as_str(), suffix_low.as_str())
}

/// What is found where the runtime should be.
pub struct RuntimeProbe {
    pub dir_exists: bool,
    pub bridge_exists: bool,
    pub capture_exists: bool,
    pub ffmpeg_dir_exists: bool,
    pub ffmpeg_files: Vec<String>,
    /// The names in `vendor/cuda`, `vendor`, `bin` and the folder itself.
    pub cuda_dirs: Vec<Vec<String>>,
}

/// Whether a folder holds a library of CUDA.
pub open spec fn has_cuda_library(names: Seq<Seq<char>>) -> bool {
    has_affixed(lowered_all(names), lowered("cublas"@), lowered(".dll"@)) || has_affixed(
        lowered_all(names),
        lowered("cudart"@),
        lowered(".dll"@),
    )
}

/// Which backend an installed runtime is for, on Windows: CUDA where one of its folders holds a
/// library of CUDA, else Vulkan where its bridge library is there.
pub open spec fn detected_backend(probe: RuntimeProbe) -> Option<Seq<char>> {
    let cuda = exists|i: int|
        0 <= i < probe.cuda_dirs@.len() && has_cuda_library(views(#[trigger] probe.cuda_dirs@[i]@));
    if !probe.dir_exists {
        None
    } else if cuda {
        Some("cuda"@)
    } else if probe.bridge_exists {
        Some("vulkan"@)
    } else {
        None
    }
}

/// Which backend an installed runtime is for, on Windows.
pub fn detect_installed_windows_runtime_backend(probe: &RuntimeProbe) -> (r: Option<String>)
    ensures
        match r {
            Some(b) => detected_backend(*probe) == Some(b@),
            None => detected_backend(*probe) is None,
        },
{
    if !probe.dir_exists {
        return None;
    }
    let mut i: usize = 0;
    while i < probe.cuda_dirs.len()
        invariant
            i <= probe.cuda_dirs@.len(),
            probe.dir_exists,
            forall|k: int|
                0 <= k < i ==> !has_cuda_library(views(#[trigger] probe.cuda_dirs@[k]@)),
        decreases probe.cuda_dirs@.len() - i,
    {
        if has_prefixed_file_case_insensitive(&probe.cuda_dirs[i], "cublas", ".dll")
            || has_prefixed_file_case_insensitive(&probe.cuda_dirs[i], "cudart", ".dll") {
            assert(has_cuda_library(views(probe.cuda_dirs@[i as int]@)));
            return Some("cuda".to_owned());
        }
        i += 1;
    }
    if probe.bridge_exists {
        return Some("vulkan".to_owned());
    }
    None
}

/// The libraries of FFmpeg that the runtime needs.
pub open spec fn ffmpeg_libraries(platform: Platform) -> Seq<&'static str> {
    if platform is Windows {
        seq!["avcodec", "avformat", "avutil", "swresample", "swscale"]
    } else {
        seq!["libavcodec", "libavformat", "libavutil", "libswresample", "libswscale"]
    }
}

/// Whether a library of FFmpeg is among the files of its folder.
pub open spec fn has_ffmpeg_library(
    platform: Platform,
    files: Seq<Seq<char>>,
    prefix: Seq<char>,
) -> bool {
    match platform {
        Platform::Windows => has_affixed(files, prefix, ".dll"@),
        Platform::MacOs => has_affixed(files, prefix, ".dylib"@),
        _ => exists|i: int| 0 <= i < files.len() && stands_at(#[trigger] files[i], prefix, 0),
    }
}

/// What is said of a library of FFmpeg that is missing.
pub open spec fn missing_library_text(platform: Platform, prefix: Seq<char>) -> Seq<char> {
    match platform {
        Platform::Windows => "Missing FFmpeg DLL "@ + prefix + "*.dll"@,
        Platform::MacOs => "Missing FFmpeg dylib "@ + prefix + "*.dylib"@,
        _ => "Missing FFmpeg shared object "@ + prefix + "*.so*"@,
    }
}

/// What is said of the libraries of FFmpeg that are missing.
pub open spec fn missing_libraries(
    platform: Platform,
    files: Seq<Seq<char>>,
    libraries: Seq<&'static str>,
) -> Seq<Seq<char>>
    decreases libraries.len(),
{
    if libraries.len() == 0 {
        Seq::empty()
    } else {
        let before = missing_libraries(platform, files, libraries.drop_last());
        if has_ffmpeg_library(platform, files, libraries.last()@) {
            before
        } else {
            before.push(missing_library_text(platform, libraries.last()@))
        }
    }
}

/// A list with one text, or with none.
pub open spec fn only_if(condition: bool, text: Seq<char>) -> Seq<Seq<char>> {
    if condition {
        seq![text]
    } else {
        Seq::empty()
    }
}

/// What is missing of the runtime in a folder.
#[verifier::opaque]
pub open spec fn missing_of(platform: Platform, runtime_dir: Seq<char>, probe: RuntimeProbe) -> Seq<
    Seq<char>,
> {
    if !probe.dir_exists {
        seq!["Runtime directory does not exist: "@ + runtime_dir]
    } else {
        only_if(
            !probe.bridge_exists,
            "Missing bridge library: "@ + bridge_library_file_name(platform)@,
        ) + only_if(
            !probe.capture_exists,
            "Missing live audio library: "@ + audio_capture_library_file_name(platform)@,
        ) + if probe.ffmpeg_dir_exists {
            missing_libraries(platform, views(probe.ffmpeg_files@), ffmpeg_libraries(platform))
        } else {
            seq![
                "Missing FFmpeg runtime directory: "@ + ffmpeg_dir_of(platform, runtime_dir),
            ]
        }
    }
}

/// Whether a library of FFmpeg is among the files of its folder.
fn ffmpeg_library_present(platform: Platform, files: &Vec<String>, prefix: &str) -> (r: bool)
    ensures
        r == has_ffmpeg_library(platform, views(files@), prefix@),
{
    match platform {
        Platform::Windows => has_prefixed_file(files, prefix, ".dll"),
        Platform::MacOs => has_prefixed_file(files, prefix, ".dylib"),
        _ => {
            let mut i: usize = 0;
            while i < files.len()
                invariant
                    i <= files@.len(),
                    !(platform is Windows) && !(platform is MacOs),
                    forall|k: int|
                        0 <= k < i ==> !stands_at(#[trigger] views(files@)[k], prefix@, 0),
                decreases files@.len() - i,
            {
                assert(views(files@)[i as int] == files@[i as int]@);
                if begins_with(files[i].as_str(), prefix) {
                    return true;
                }
                i += 1;
            }
            false
        },
    }
}

/// The libraries of FFmpeg that the runtime needs.
fn ffmpeg_library_list(platform: Platform) -> (r: Vec<&'static str>)
    ensures
        r@ == ffmpeg_libraries(platform),
{
    let r: Vec<&'static str> = match platform {
        Platform::Windows => vec!["avcodec", "avformat", "avutil", "swresample", "swscale"],
        _ => vec!["libavcodec", "libavformat", "libavutil", "libswresample", "libswscale"],
    };
    assert(r@ =~= ffmpeg_libraries(platform));
    r
}

/// What is missing of the runtime in a folder, given what is found there.
pub fn runtime_missing_messages(platform: Platform, runtime_dir: &str, probe: &RuntimeProbe) -> (r:
    Vec<String>)
    ensures
        views(r@) == missing_of(platform, runtime_dir@, *probe),
{
    reveal(missing_of);
    let mut missing: Vec<String> = Vec::new();
    if !probe.dir_exists {
        missing.push(cat2("Runtime directory does not exist: ", runtime_dir));
        assert(views(missing@) =~= missing_of(platform, runtime_dir@, *probe));
        return missing;
    }
    if !probe.bridge_exists {
        missing.push(cat2("Missing bridge library: ", bridge_library_file_name(platform)));
    }
    if !probe.capture_exists {
        missing.push(
            cat2("Missing live audio library: ", audio_capture_library_file_name(platform)),
        );
    }
    let ghost head = views(missing@);
    assert(head =~= only_if(
        !probe.bridge_exists,
        "Missing bridge library: "@ + bridge_library_file_name(platform)@,
    ) + only_if(
        !probe.capture_exists,
        "Missing live audio library: "@ + audio_capture_library_file_name(platform)@,
    ));
    if !probe.ffmpeg_dir_exists {
        let dir: String = ffmpeg_runtime_dir(platform, runtime_dir);
        missing.push(cat2("Missing FFmpeg runtime directory: ", dir.as_str()));
        assert(views(missing@) =~= missing_of(platform, runtime_dir@, *probe));
        return missing;
    }
    let libraries: Vec<&'static str> = ffmpeg_library_list(platform);
    let ghost files = views(probe.ffmpeg_files@);
    let mut i: usize = 0;
    assert(views(missing@) =~= head + missing_libraries(platform, files, libraries@.take(0)));
    while i < libraries.len()
        invariant
            i <= libraries@.len(),
            files == views(probe.ffmpeg_files@),
            views(missing@) == head + missing_libraries(
                platform,
                files,
                libraries@.take(i as int),
            ),
        decreases libraries@.len() - i,
    {
        assert(libraries@.take(i + 1).drop_last() =~= libraries@.take(i as int));
        assert(libraries@.take(i + 1).last() == libraries@[i as int]);
        let prefix: &'static str = libraries[i];
        if !ffmpeg_library_present(platform, &probe.ffmpeg_files, prefix) {
            let ghost before = missing@;
            let text: String = match platform {
                Platform::Windows => cat3("Missing FFmpeg DLL ", prefix, "*.dll"),
                Platform::MacOs => cat3("Missing FFmpeg dylib ", prefix, "*.dylib"),
                _ => cat3("Missing FFmpeg shared object ", prefix, "*.so*"),
            };
            missing.push(text);
            assert(views(missing@) =~= views(before).push(
                missing_library_text(platform, prefix@),
            ));
            assert(views(missing@) =~= head + missing_libraries(
                platform,
                files,
                libraries@.take(i + 1),
            ));
        }
        i += 1;
    }
    assert(libraries@.take(i as int) =~= libraries@);
    missing
}

/// Why a runtime that was installed cannot be used: what it lacks; none where it lacks nothing.
pub fn installed_runtime_error(platform: Platform, runtime_dir: &str, probe: &RuntimeProbe) -> (r:
    Option<String>)
    ensures
        ({
            let missing = missing_of(platform, runtime_dir@, *probe);
            match r {
                Some(why) => missing.len() > 0 && why@ == "Installed runtime is incomplete:\n"@
                    + joined(missing, "\n"@),
                None => missing.len() == 0,
            }
        }),
{
    let missing: Vec<String> = runtime_missing_messages(platform, runtime_dir, probe);
    assert(views(missing@).len() == missing@.len());
    if missing.len() == 0 {
        return None;
    }
    let list: String = join(&missing, "\n");
    Some(cat2("Installed runtime is incomplete:\n", list.as_str()))
}

/// The command that runs the script which unblocks an unsigned runtime: the program, then its
/// arguments.
pub open spec fn unblock_words(
    platform: Platform,
    script: Seq<char>,
    runtime_dir: Seq<char>,
) -> Seq<Seq<char>> {
    if platform is Windows {
        seq![
            "powershell"@,
            "-NoProfile"@,
            "-ExecutionPolicy"@,
            "Bypass"@,
            "-File"@,
            script,
            "-RuntimeDir"@,
            runtime_dir,
        ]
    } else {
        seq!["sh"@, script, runtime_dir]
    }
}

/// The command that runs the script which unblocks an unsigned runtime: the program, then its
/// arguments.
pub fn unblock_command(platform: Platform, script: &str, runtime_dir: &str) -> (r: Vec<String>)
    ensures
        views(r@) == unblock_words(platform, script@, runtime_dir@),
{
    let r: Vec<String> = match platform {
        Platform::Windows => vec![
            "powershell".to_owned(),
            "-NoProfile".to_owned(),
            "-ExecutionPolicy".to_owned(),
            "Bypass".to_owned(),
            "-File".to_owned(),
            script.to_owned(),
            "-RuntimeDir".to_owned(),
            runtime_dir.to_owned(),
        ],
        _ => vec!["sh".to_owned(), script.to_owned(), runtime_dir.to_owned()],
    };
    assert(views(r@) =~= unblock_words(platform, script@, runtime_dir@));
    r
}

/// What is said when the script that unblocks an unsigned runtime has ended.
pub fn unblock_outcome(script: &str, success: bool, stdout: &str, stderr: &str) -> (r: Result<
    String,
    String,
>)
    ensures
        ({
            let out = stripped(stdout@);
            let err = stripped(stderr@);
            match r {
                Ok(text) => success && text@ == "Unsigned runtime unblock complete."@ + if out.len()
                    == 0 {
                    Seq::empty()
                } else {
                    " | "@ + out
                },
                Err(text) => !success && text@ == "embedded unsigned-runtime script failed ("@
                    + script@ + "): "@ + if err.len() == 0 {
                    out
                } else {
                    err
                },
            }
        }),
{
    let out: &str = trim(stdout);
    let err: &str = trim(stderr);
    if !success {
        let details: &str = if err.is_empty() {
            out
        } else {
            err
        };
        let head: String = cat3("embedded unsigned-runtime script failed (", script, "): ");
        return Err(cat2(head.as_str(), details));
    }
    if out.is_empty() {
        let text: String = "Unsigned runtime unblock complete.".to_owned();
        assert(text@ =~= "Unsigned runtime unblock complete."@ + Seq::<char>::empty());
        return Ok(text);
    }
    let text: String = cat3("Unsigned runtime unblock complete.", " | ", out);
    assert(text@ =~= "Unsigned runtime unblock complete."@ + (" | "@ + out@));
    Ok(text)
}

/// What a panic carries, as text.
pub fn panic_payload_to_string(owned: Option<String>, fixed: Option<&str>) -> (r: String)
    ensures
        r@ == match (owned, fixed) {
            (Some(s), _) => s@,
            (None, Some(s)) => s@,
            _ => "unknown panic payload"@,
        },
{
    if let Some(s) = owned {
        return s;
    }
    if let Some(s) = fixed {
        return s.to_owned();
    }
    "unknown panic payload".to_owned()
}

/// The backends that are offered on a system when none are known.
pub open spec fn default_backends(platform: Platform) -> Seq<Seq<char>> {
    match platform {
        Platform::Windows => seq!["vulkan"@, "cuda"@],
        Platform::MacOs => seq!["metal"@],
        _ => seq!["vulkan"@],
    }
}

/// The backends that are offered on a system when none are known.
pub fn default_runtime_backends_for_platform(platform: Platform) -> (r: Vec<String>)
    ensures
        views(r@) == default_backends(platform),
{
    let r: Vec<String> = match platform {
        Platform::Windows => vec!["vulkan".to_owned(), "cuda".to_owned()],
        Platform::MacOs => vec!["metal".to_owned()],
        _ => vec!["vulkan".to_owned()],
    };
    assert(views(r@) =~= default_backends(platform));
    r
}

/// Whether `a` comes before `b` in the order of their characters.
pub open spec fn text_before(a: Seq<char>, b: Seq<char>) -> bool
    decreases a.len(),
{
    if b.len() == 0 {
        false
    } else if a.len() == 0 {
        true
    } else if a[0] != b[0] {
        (a[0] as int) < (b[0] as int)
    } else {
        text_before(a.drop_first(), b.drop_first())
    }
}

/// A sorted list with one more text in its place; with nothing more where it holds the text.
pub open spec fn with_text(list: Seq<Seq<char>>, x: Seq<char>) -> Seq<Seq<char>>
    decreases list.len(),
{
    if list.len() == 0 {
        seq![x]
    } else if list[0] == x {
        list
    } else if text_before(x, list[0]) {
        seq![x] + list
    } else {
        seq![list[0]] + with_text(list.drop_first(), x)
    }
}

/// The texts in ascending order, each once.
pub open spec fn sorted_texts(list: Seq<Seq<char>>) -> Seq<Seq<char>>
    decreases list.len(),
{
    if list.len() == 0 {
        Seq::empty()
    } else {
        with_text(sorted_texts(list.drop_last()), list.last())
    }
}

/// Whether each text comes before all that follow it.
pub open spec fn ascending(list: Seq<Seq<char>>) -> bool {
    forall|i: int, j: int|
        0 <= i < j < list.len() ==> text_before(#[trigger] list[i], #[trigger] list[j])
}

/// Of two texts that differ, one comes before the other.
proof fn lemma_text_order_total(a: Seq<char>, b: Seq<char>)
    requires
        a != b,
    ensures
        text_before(a, b) || text_before(b, a),
    decreases a.len(),
{
    if a.len() == 0 || b.len() == 0 {
        assert(a.len() != b.len()) by {
            if a.len() == b.len() {
                assert(a =~= b);
            }
        }
    } else if a[0] == b[0] {
        if a.drop_first() == b.drop_first() {
            assert(a =~= seq![a[0]] + a.drop_first());
            assert(b =~= seq![b[0]] + b.drop_first());
        } else {
            lemma_text_order_total(a.drop_first(), b.drop_first());
        }
    }
}

/// The order of texts is transitive.
proof fn lemma_text_order_transitive(a: Seq<char>, b: Seq<char>, c: Seq<char>)
    requires
        text_before(a, b),
        text_before(b, c),
    ensures
        text_before(a, c),
    decreases a.len(),
{
    if a.len() > 0 && a[0] == b[0] && b[0] == c[0] {
        lemma_text_order_transitive(a.drop_first(), b.drop_first(), c.drop_first());
    }
}

/// Inserting keeps a list ascending and adds what was inserted.
proof fn lemma_with_text(list: Seq<Seq<char>>, x: Seq<char>)
    requires
        ascending(list),
    ensures
        ascending(with_text(list, x)),
        forall|y: Seq<char>| #[trigger]
            with_text(list, x).contains(y) <==> (y == x || list.contains(y)),
    decreases list.len(),
{
    let r = with_text(list, x);
    if list.len() == 0 {
        assert(r[0] == x);
        assert(forall|y: Seq<char>| #[trigger] r.contains(y) ==> y == x);
    } else if list[0] == x {
        assert(list.contains(x));
    } else if text_before(x, list[0]) {
        assert forall|i: int, j: int| 0 <= i < j < r.len() implies text_before(
            #[trigger] r[i],
            #[trigger] r[j],
        ) by {
            assert(r[j] == list[j - 1]);
            if i == 0 {
                if j > 1 {
                    lemma_text_order_transitive(x, list[0], list[j - 1]);
                }
            } else {
                assert(r[i] == list[i - 1]);
            }
        }
        assert forall|y: Seq<char>| #[trigger] r.contains(y) <==> (y == x || list.contains(y)) by {
            if list.contains(y) {
                let k = choose|k: int| 0 <= k < list.len() && list[k] == y;
                assert(r[k + 1] == y);
            }
            if y == x {
                assert(r[0] == y);
            }
            if r.contains(y) && y != x {
                let k = choose|k: int| 0 <= k < r.len() && r[k] == y;
                assert(list[k - 1] == y);
            }
        }
    } else {
        let rest = list.drop_first();
        assert forall|i: int, j: int| 0 <= i < j < rest.len() implies text_before(
            #[trigger] rest[i],
            #[trigger] rest[j],
        ) by {
            assert(rest[i] == list[i + 1] && rest[j] == list[j + 1]);
        }
        lemma_with_text(rest, x);
        lemma_text_order_total(x, list[0]);
        let tail = with_text(rest, x);
        assert(r =~= seq![list[0]] + tail);
        assert forall|i: int, j: int| 0 <= i < j < r.len() implies text_before(
            #[trigger] r[i],
            #[trigger] r[j],
        ) by {
            assert(r[j] == tail[j - 1]);
            if i == 0 {
                assert(tail.contains(tail[j - 1]));
                if tail[j - 1] != x {
                    let k = choose|k: int| 0 <= k < rest.len() && rest[k] == tail[j - 1];
                    assert(rest[k] == list[k + 1]);
                }
            } else {
                assert(r[i] == tail[i - 1]);
            }
        }
        assert forall|y: Seq<char>| #[trigger] r.contains(y) <==> (y == x || list.contains(y)) by {
            assert(tail.contains(y) <==> (y == x || rest.contains(y)));
            if r.contains(y) {
                let k = choose|k: int| 0 <= k < r.len() && r[k] == y;
                if k == 0 {
                    assert(list[0] == y);
                } else {
                    assert(tail[k - 1] == y);
                    if rest.contains(y) {
                        let m = choose|m: int| 0 <= m < rest.len() && rest[m] == y;
                        assert(list[m + 1] == y);
                    }
                }
            }
            if tail.contains(y) {
                let k = choose|k: int| 0 <= k < tail.len() && tail[k] == y;
                assert(r[k + 1] == y);
            }
            if list.contains(y) {
                let k = choose|k: int| 0 <= k < list.len() && list[k] == y;
                if k == 0 {
                    assert(r[0] == y);
                } else {
                    assert(rest[k - 1] == y);
                }
            }
        }
    }
}

/// Sorting gives the texts in ascending order, each once: it neither loses nor adds any.
pub proof fn lemma_sorted_texts(list: Seq<Seq<char>>)
    ensures
        ascending(sorted_texts(list)),
        forall|y: Seq<char>| #[trigger] sorted_texts(list).contains(y) <==> list.contains(y),
    decreases list.len(),
{
    if list.len() > 0 {
        let before = list.drop_last();
        lemma_sorted_texts(before);
        lemma_with_text(sorted_texts(before), list.last());
        assert forall|y: Seq<char>| #[trigger] sorted_texts(list).contains(y) <==> list.contains(
            y,
        ) by {
            assert(sorted_texts(before).contains(y) <==> before.contains(y));
            if list.contains(y) {
                let k = choose|k: int| 0 <= k < list.len() && list[k] == y;
                if k < before.len() {
                    assert(before[k] == y);
                }
            }
            if before.contains(y) {
                let k = choose|k: int| 0 <= k < before.len() && before[k] == y;
                assert(list[k] == y);
            }
            assert(list.last() == list[list.len() - 1]);
        }
    }
}

/// Whether `a` comes before `b` in the order of their characters.
fn comes_before(a: &str, b: &str) -> (r: bool)
    ensures
        r == text_before(a@, b@),
{
    let x: Vec<char> = crate::text::chars_of(a);
    let y: Vec<char> = crate::text::chars_of(b);
    let mut i: usize = 0;
    assert(x@.skip(0) =~= x@);
    assert(y@.skip(0) =~= y@);
    while i < x.len() && i < y.len() && x[i] == y[i]
        invariant
            i <= x@.len(),
            i <= y@.len(),
            text_before(x@, y@) == text_before(x@.skip(i as int), y@.skip(i as int)),
        decreases x@.len() - i,
    {
        assert(x@.skip(i as int).drop_first() =~= x@.skip(i + 1));
        assert(y@.skip(i as int).drop_first() =~= y@.skip(i + 1));
        i += 1;
    }
    if i >= y.len() {
        false
    } else if i >= x.len() {
        true
    } else {
        x[i] < y[i]
    }
}

/// Where a text is put into a list.
proof fn lemma_text_place(list: Seq<Seq<char>>, x: Seq<char>, n: int)
    requires
        0 <= n <= list.len(),
        forall|k: int| 0 <= k < n ==> #[trigger] list[k] != x && !text_before(x, list[k]),
        n < list.len() ==> list[n] == x || text_before(x, list[n]),
    ensures
        with_text(list, x) == if n < list.len() && list[n] == x {
            list
        } else {
            list.insert(n, x)
        },
    decreases list.len(),
{
    if n == 0 {
        if list.len() == 0 || list[0] != x {
            assert(with_text(list, x) =~= list.insert(n, x));
        }
    } else {
        let rest = list.drop_first();
        assert(list[0] != x && !text_before(x, list[0]));
        assert forall|k: int| 0 <= k < n - 1 implies #[trigger] rest[k] != x && !text_before(
            x,
            rest[k],
        ) by {
            assert(rest[k] == list[k + 1]);
        }
        lemma_text_place(rest, x, n - 1);
        if n < list.len() && list[n] == x {
            assert(seq![list[0]] + rest =~= list);
        } else {
            assert(seq![list[0]] + rest.insert(n - 1, x) =~= list.insert(n, x));
        }
    }
}

/// Puts a text in its place, unless the list holds it.
fn insert_text(list: &mut Vec<String>, x: String)
    ensures
        views(final(list)@) == with_text(views(old(list)@), x@),
{
    let ghost all = views(list@);
    let ghost text = x@;
    let mut i: usize = 0;
    while i < list.len() && !same_text(list[i].as_str(), x.as_str()) && !comes_before(
        x.as_str(),
        list[i].as_str(),
    )
        invariant
            i <= list@.len(),
            all == views(list@),
            text == x@,
            forall|k: int| 0 <= k < i ==> #[trigger] all[k] != text && !text_before(text, all[k]),
        decreases list@.len() - i,
    {
        i += 1;
    }
    proof {
        if i < list@.len() {
            assert(all[i as int] == list@[i as int]@);
        }
        lemma_text_place(all, text, i as int);
    }
    if i < list.len() && same_text(list[i].as_str(), x.as_str()) {
        return;
    }
    list.insert(i, x);
    assert(views(list@) =~= all.insert(i as int, text));
}

/// The texts in ascending order, each once.
fn sort_texts(list: &Vec<String>) -> (r: Vec<String>)
    ensures
        views(r@) == sorted_texts(views(list@)),
{
    let ghost all = views(list@);
    let mut out: Vec<String> = Vec::new();
    let mut i: usize = 0;
    assert(views(out@) =~= sorted_texts(all.take(0)));
    while i < list.len()
        invariant
            i <= list@.len(),
            all == views(list@),
            views(out@) == sorted_texts(all.take(i as int)),
        decreases list@.len() - i,
    {
        assert(all.take(i + 1).drop_last() =~= all.take(i as int));
        assert(all.take(i + 1).last() == list@[i as int]@);
        insert_text(&mut out, list[i].clone());
        i += 1;
    }
    assert(all.take(i as int) =~= all);
    out
}

/// In which place a backend is offered on Windows.
pub open spec fn backend_rank(name: Seq<char>) -> nat {
    if lowered(name) == "vulkan"@ {
        0
    } else if lowered(name) == "cuda"@ {
        1
    } else {
        2
    }
}

/// The backends of one place, in their order.
pub open spec fn of_rank(list: Seq<Seq<char>>, rank: nat) -> Seq<Seq<char>>
    decreases list.len(),
{
    if list.len() == 0 {
        Seq::empty()
    } else if backend_rank(list.last()) == rank {
        of_rank(list.drop_last(), rank).push(list.last())
    } else {
        of_rank(list.drop_last(), rank)
    }
}

/// The backends in the order in which a system offers them: on Windows Vulkan, then CUDA, then the
/// others.
pub open spec fn platform_order(platform: Platform, list: Seq<Seq<char>>) -> Seq<Seq<char>> {
    if platform is Windows {
        of_rank(list, 0) + of_rank(list, 1) + of_rank(list, 2)
    } else {
        list
    }
}

/// Adds the backends of one place to `out`.
fn push_rank(list: &Vec<String>, rank: u8, out: &mut Vec<String>)
    requires
        rank <= 2,
    ensures
        views(final(out)@) == views(old(out)@) + of_rank(views(list@), rank as nat),
{
    let ghost all = views(list@);
    let ghost head = views(out@);
    proof {
        reveal_strlit("vulkan");
        reveal_strlit("cuda");
    }
    let mut i: usize = 0;
    assert(views(out@) =~= head + of_rank(all.take(0), rank as nat));
    while i < list.len()
        invariant
            i <= list@.len(),
            rank <= 2,
            all == views(list@),
            "vulkan"@.len() != "cuda"@.len(),
            views(out@) == head + of_rank(all.take(i as int), rank as nat),
        decreases list@.len() - i,
    {
        assert(all.take(i + 1).drop_last() =~= all.take(i as int));
        assert(all.take(i + 1).last() == list@[i as int]@);
        let low: String = to_ascii_lowercase(list[i].as_str());
        let own: u8 = if same_text(low.as_str(), "vulkan") {
            0
        } else if same_text(low.as_str(), "cuda") {
            1
        } else {
            2
        };
        if own == rank {
            let ghost before = out@;
            out.push(list[i].clone());
            assert(views(out@) =~= views(before).push(list@[i as int]@));
            assert(views(out@) =~= head + of_rank(all.take(i + 1), rank as nat));
        }
        i += 1;
    }
    assert(all.take(i as int) =~= all);
}

/// Puts the backends in the order in which the system offers them.
pub fn sort_runtime_backends_for_platform(platform: Platform, options: &mut Vec<String>)
    ensures
        views(final(options)@) == platform_order(platform, views(old(options)@)),
{
    if matches!(platform, Platform::Windows) {
        let mut out: Vec<String> = Vec::new();
        assert(views(out@) =~= Seq::<Seq<char>>::empty());
        push_rank(options, 0, &mut out);
        push_rank(options, 1, &mut out);
        push_rank(options, 2, &mut out);
        assert(views(out@) =~= platform_order(platform, views(options@)));
        *options = out;
    }
}

/// The names without the white space round them, in small letters, those left out of which nothing
/// is left.
pub open spec fn clean_names(list: Seq<Seq<char>>) -> Seq<Seq<char>>
    decreases list.len(),
{
    if list.len() == 0 {
        Seq::empty()
    } else {
        let before = clean_names(list.drop_last());
        let name = lowered(stripped(list.last()));
        if name.len() == 0 {
            before
        } else {
            before.push(name)
        }
    }
}

/// The backends that are offered, given those that are available, where this is known.
#[verifier::opaque]
pub open spec fn offered_backends(platform: Platform, available: Option<Seq<Seq<char>>>) -> Seq<
    Seq<char>,
> {
    let names = sorted_texts(
        clean_names(
            match available {
                Some(list) => list,
                None => default_backends(platform),
            },
        ),
    );
    platform_order(
        platform,
        if names.len() == 0 {
            default_backends(platform)
        } else {
            names
        },
    )
}

/// The names without the white space round them, in small letters, those left out of which nothing
/// is left.
fn clean_list(list: &Vec<String>) -> (names: Vec<String>)
    ensures
        views(names@) == clean_names(views(list@)),
{
    let ghost all = views(list@);
    let mut names: Vec<String> = Vec::new();
    let mut i: usize = 0;
    assert(views(names@) =~= clean_names(all.take(0)));
    while i < list.len()
        invariant
            i <= list@.len(),
            all == views(list@),
            views(names@) == clean_names(all.take(i as int)),
        decreases list@.len() - i,
    {
        assert(all.take(i + 1).drop_last() =~= all.take(i as int));
        assert(all.take(i + 1).last() == list@[i as int]@);
        let name: String = to_ascii_lowercase(trim(list[i].as_str()));
        if !name.as_str().is_empty() {
            let ghost before = names@;
            let ghost text = name@;
            names.push(name);
            assert(views(names@) =~= views(before).push(text));
        }
        i += 1;
    }
    assert(all.take(i as int) =~= all);
    names
}

/// The backends that are offered, given those that are available, where this is known.
pub fn runtime_backend_options(platform: Platform, available: &Option<Vec<String>>) -> (r: Vec<
    String,
>)
    ensures
        views(r@) == offered_backends(
            platform,
            match *available {
                Some(list) => Some(views(list@)),
                None => None,
            },
        ),
{
    reveal(offered_backends);
    let defaults: Vec<String> = default_runtime_backends_for_platform(platform);
    let names: Vec<String> = match available {
        Some(list) => clean_list(list),
        None => clean_list(&defaults),
    };
    let mut options: Vec<String> = sort_texts(&names);
    assert(views(options@).len() == options@.len());
    if options.len() == 0 {
        options = defaults;
    }
    sort_runtime_backends_for_platform(platform, &mut options);
    options
}

/// Which backend a name is, but for case; the first where it is none of them.
pub open spec fn backend_pos(backends: Seq<Seq<char>>, configured: Seq<char>) -> nat {
    let name = stripped(configured);
    let at = first_where(backends, |b: Seq<char>| lowered(b) == lowered(name));
    if name.len() == 0 || at >= backends.len() {
        0
    } else {
        at
    }
}

/// Which backend a name is, but for case; the first where it is none of them.
pub fn resolve_runtime_backend_index(backends: &Vec<String>, configured_backend: &str) -> (r: usize)
    ensures
        r == backend_pos(views(backends@), configured_backend@),
        backends@.len() > 0 ==> r < backends@.len(),
{
    let name: &str = trim(configured_backend);
    let ghost all = views(backends@);
    let ghost want = name@;
    let ghost p = |b: Seq<char>| lowered(b) == lowered(want);
    if name.is_empty() {
        return 0;
    }
    let mut i: usize = 0;
    while i < backends.len()
        invariant
            i <= backends@.len(),
            all == views(backends@),
            want == name@,
            want == stripped(configured_backend@),
            want.len() > 0,
            p == (|b: Seq<char>| lowered(b) == lowered(want)),
            forall|k: int| 0 <= k < i ==> !p(#[trigger] all[k]),
        decreases backends@.len() - i,
    {
        assert(all[i as int] == backends@[i as int]@);
        if eq_ignore_ascii_case(backends[i].as_str(), name) {
            proof {
                lemma_first_where(all, p, i as int);
            }
            return i;
        }
        i += 1;
    }
    proof {
        lemma_first_where(all, p, i as int);
    }
    0
}

/// The backends that are offered, which of them is chosen, and the settings.
pub struct BackendChoice {
    pub backends: Seq<Seq<char>>,
    pub index: nat,
    pub settings: SettingsView,
}

/// The choice after an installed runtime was found to be for `detected`.
#[verifier::opaque]
pub open spec fn synced_choice(platform: Platform, c: BackendChoice, detected: Option<Seq<char>>) ->
    BackendChoice {
    match detected {
        Some(name) if platform is Windows && c.backends.len() > 0 => {
            let known = exists|i: int|
                0 <= i < c.backends.len() && lowered(#[trigger] c.backends[i]) == lowered(name);
            let backends = if known {
                c.backends
            } else {
                platform_order(platform, sorted_texts(c.backends.push(name)))
            };
            BackendChoice {
                backends,
                index: backend_pos(backends, name),
                settings: if lowered(stripped(c.settings.runtime_download_backend)) == lowered(
                    name,
                ) {
                    c.settings
                } else {
                    SettingsView { runtime_download_backend: name, ..c.settings }
                },
            }
        },
        _ => c,
    }
}

/// Chooses the backend that an installed runtime is for; `true` where that changed the choice or
/// the settings.
pub fn sync_runtime_backend_from_installed_runtime(
    platform: Platform,
    detected: Option<String>,
    settings: &mut AppSettings,
    backends: &mut Vec<String>,
    selected_backend_index: &mut usize,
) -> (r: bool)
    ensures
        ({
            let before = BackendChoice {
                backends: views(old(backends)@),
                index: *old(selected_backend_index) as nat,
                settings: old(settings)@,
            };
            let after = BackendChoice {
                backends: views(final(backends)@),
                index: *final(selected_backend_index) as nat,
                settings: final(settings)@,
            };
            &&& after == synced_choice(
                platform,
                before,
                match detected {
                    Some(d) => Some(d@),
                    None => None,
                },
            )
            &&& r == match detected {
                Some(d) if platform is Windows && before.backends.len() > 0 => after.index
                    != before.index || lowered(stripped(before.settings.runtime_download_backend))
                    != lowered(d@),
                _ => false,
            }
        }),
{
    reveal(synced_choice);
    let name: String = match detected {
        Some(name) => name,
        None => {
            return false;
        },
    };
    if !matches!(platform, Platform::Windows) || backends.len() == 0 {
        return false;
    }
    let ghost all = views(backends@);
    let ghost start = *settings;
    let mut known: bool = false;
    let mut i: usize = 0;
    while i < backends.len()
        invariant
            i <= backends@.len(),
            all == views(backends@),
            known == exists|k: int| 0 <= k < i && lowered(#[trigger] all[k]) == lowered(name@),
        decreases backends@.len() - i,
    {
        assert(all[i as int] == backends@[i as int]@);
        if eq_ignore_ascii_case(backends[i].as_str(), name.as_str()) {
            assert(lowered(all[i as int]) == lowered(name@));
            known = true;
        }
        i += 1;
    }
    if !known {
        let ghost before = backends@;
        backends.push(name.clone());
        assert(views(backends@) =~= views(before).push(name@));
        let sorted: Vec<String> = sort_texts(backends);
        *backends = sorted;
        sort_runtime_backends_for_platform(platform, backends);
    }
    let index: usize = resolve_runtime_backend_index(backends, name.as_str());
    let mut changed: bool = *selected_backend_index != index;
    *selected_backend_index = index;
    if !eq_ignore_ascii_case(trim(settings.runtime_download_backend.as_str()), name.as_str()) {
        settings.runtime_download_backend = name;
        changed = true;
    }
    changed
}

/// The folders in which the runtime is looked for: the one that is set, then the default.
pub open spec fn runtime_places(mapped: Seq<char>, fallback: Seq<char>) -> Seq<Seq<char>> {
    deduped(
        if stripped(mapped).len() == 0 {
            seq![fallback]
        } else {
            seq![mapped, fallback]
        },
    )
}

/// The folders in which the runtime is looked for: the one that is set, then the default.
pub fn runtime_dir_candidates(mapped: &str, fallback: &str) -> (r: Vec<String>)
    ensures
        views(r@) == runtime_places(mapped@, fallback@),
{
    let mut out: Vec<String> = Vec::new();
    if !trim(mapped).is_empty() {
        out.push(mapped.to_owned());
    }
    out.push(fallback.to_owned());
    assert(views(out@) =~= if stripped(mapped@).len() == 0 {
        seq![fallback@]
    } else {
        seq![mapped@, fallback@]
    });
    dedupe_paths(out)
}

/// Whether the bridge library is in a folder, given what is there.
#[verifier::allow_in_spec]
pub fn has_bridge_library(dir_exists: bool, bridge_exists: bool) -> bool
    returns
        dir_exists && bridge_exists,
{
    dir_exists && bridge_exists
}

/// What is found in a folder in which the runtime is looked for.
#[derive(Debug, Clone, Copy)]
pub struct PlaceProbe {
    pub dir_exists: bool,
    pub bridge_exists: bool,
}

/// The folder of the runtime: the first that holds the bridge library, else the first that exists,
/// else the one that is set or the default.
pub open spec fn runtime_place(
    preferred: Seq<char>,
    mapped: Seq<char>,
    fallback: Seq<char>,
    probes: Seq<PlaceProbe>,
) -> Seq<char> {
    let places = runtime_places(mapped, fallback);
    let bridge = first_where(
        probes,
        |p: PlaceProbe| has_bridge_library(p.dir_exists, p.bridge_exists),
    );
    let there = first_where(probes, |p: PlaceProbe| p.dir_exists);
    if bridge < probes.len() {
        places[bridge as int]
    } else if there < probes.len() {
        places[there as int]
    } else if preferred.len() == 0 {
        fallback
    } else if stripped(mapped).len() == 0 {
        preferred
    } else {
        mapped
    }
}

/// The folder of the runtime: the first that holds the bridge library, else the first that exists,
/// else the one that is set or the default. `probes` says what is found in each candidate.
pub fn resolve_runtime_dir(
    preferred: &str,
    mapped: &str,
    fallback: &str,
    probes: &Vec<PlaceProbe>,
) -> (r: String)
    requires
        probes@.len() == runtime_places(mapped@, fallback@).len(),
    ensures
        r@ == runtime_place(preferred@, mapped@, fallback@, probes@),
{
    let candidates: Vec<String> = runtime_dir_candidates(mapped, fallback);
    assert(views(candidates@).len() == candidates@.len());
    let ghost bridge = |p: PlaceProbe| has_bridge_library(p.dir_exists, p.bridge_exists);
    let ghost there = |p: PlaceProbe| p.dir_exists;
    let mut i: usize = 0;
    while i < probes.len()
        invariant
            i <= probes@.len(),
            probes@.len() == candidates@.len(),
            views(candidates@) == runtime_places(mapped@, fallback@),
            bridge == (|p: PlaceProbe| has_bridge_library(p.dir_exists, p.bridge_exists)),
            forall|k: int| 0 <= k < i ==> !bridge(#[trigger] probes@[k]),
        decreases probes@.len() - i,
    {
        if has_bridge_library(probes[i].dir_exists, probes[i].bridge_exists) {
            proof {
                lemma_first_where(probes@, bridge, i as int);
            }
            assert(views(candidates@)[i as int] == candidates@[i as int]@);
            return candidates[i].clone();
        }
        i += 1;
    }
    proof {
        lemma_first_where(probes@, bridge, i as int);
    }
    let mut j: usize = 0;
    while j < probes.len()
        invariant
            j <= probes@.len(),
            probes@.len() == candidates@.len(),
            views(candidates@) == runtime_places(mapped@, fallback@),
            first_where(
                probes@,
                |p: PlaceProbe| has_bridge_library(p.dir_exists, p.bridge_exists),
            ) == probes@.len(),
            there == (|p: PlaceProbe| p.dir_exists),
            forall|k: int| 0 <= k < j ==> !there(#[trigger] probes@[k]),
        decreases probes@.len() - j,
    {
        if probes[j].dir_exists {
            proof {
                lemma_first_where(probes@, there, j as int);
            }
            assert(views(candidates@)[j as int] == candidates@[j as int]@);
            return candidates[j].clone();
        }
        j += 1;
    }
    proof {
        lemma_first_where(probes@, there, j as int);
    }
    if preferred.is_empty() {
        fallback.to_owned()
    } else if trim(mapped).is_empty() {
        preferred.to_owned()
    } else {
        mapped.to_owned()
    }
}

/// The folders that the dynamic libraries of the runtime lie in.
pub open spec fn library_folders(platform: Platform, runtime_dir: Seq<char>) -> Seq<Seq<char>> {
    if runtime_dir.len() == 0 {
        Seq::empty()
    } else {
        let vendor = joined_path(platform, runtime_dir, "vendor"@);
        let ffmpeg = joined_path(platform, vendor, "ffmpeg"@);
        seq![
            runtime_dir,
            joined_path(platform, ffmpeg, "bin"@),
            ffmpeg,
            joined_path(platform, vendor, "pdfium"@),
        ]
    }
}

/// The folders that the dynamic libraries of the runtime lie in.
pub fn library_search_folders(platform: Platform, runtime_dir: &str) -> (r: Vec<String>)
    ensures
        views(r@) == library_folders(platform, runtime_dir@),
{
    let mut out: Vec<String> = Vec::new();
    if !runtime_dir.is_empty() {
        let vendor: String = join_path(platform, runtime_dir, "vendor");
        let ffmpeg: String = join_path(platform, vendor.as_str(), "ffmpeg");
        out.push(runtime_dir.to_owned());
        out.push(join_path(platform, ffmpeg.as_str(), "bin"));
        let pdfium: String = join_path(platform, vendor.as_str(), "pdfium");
        out.push(ffmpeg);
        out.push(pdfium);
    }
    assert(views(out@) =~= library_folders(platform, runtime_dir@));
    out
}

/// The folders that exist and are not yet searched, but for case, each once.
pub open spec fn added_folders(
    folders: Seq<Seq<char>>,
    exists_there: Seq<bool>,
    searched: Seq<Seq<char>>,
) -> Seq<Seq<char>>
    decreases folders.len(),
{
    if folders.len() == 0 || folders.len() != exists_there.len() {
        Seq::empty()
    } else {
        let before = added_folders(folders.drop_last(), exists_there.drop_last(), searched);
        let folder = folders.last();
        if exists_there.last() && !crate::paths::holds_folded(searched, folder)
            && !crate::paths::holds_folded(before, folder) {
            before.push(folder)
        } else {
            before
        }
    }
}

/// The search path with the folders of the runtime put before it that exist and are not in it yet;
/// `None` where it stays as it is.
pub fn merged_search_path(
    folders: &Vec<String>,
    exists_there: &Vec<bool>,
    searched: &Vec<String>,
) -> (r: Option<Vec<String>>)
    requires
        folders@.len() == exists_there@.len(),
    ensures
        ({
            let added = added_folders(views(folders@), exists_there@, views(searched@));
            match r {
                Some(path) => added.len() > 0 && views(path@) == added + views(searched@),
                None => added.len() == 0,
            }
        }),
{
    let ghost all = views(folders@);
    let ghost known = views(searched@);
    let mut out: Vec<String> = Vec::new();
    let mut i: usize = 0;
    assert(views(out@) =~= added_folders(all.take(0), exists_there@.take(0), known));
    while i < folders.len()
        invariant
            i <= folders@.len(),
            folders@.len() == exists_there@.len(),
            all == views(folders@),
            known == views(searched@),
            views(out@) == added_folders(
                all.take(i as int),
                exists_there@.take(i as int),
                known,
            ),
        decreases folders@.len() - i,
    {
        assert(all.take(i + 1).drop_last() =~= all.take(i as int));
        assert(all.take(i + 1).last() == folders@[i as int]@);
        assert(exists_there@.take(i + 1).drop_last() =~= exists_there@.take(i as int));
        if exists_there[i] && !crate::paths::contains_folded(searched, folders[i].as_str())
            && !crate::paths::contains_folded(&out, folders[i].as_str()) {
            let ghost before = out@;
            out.push(folders[i].clone());
            assert(views(out@) =~= views(before).push(folders@[i as int]@));
        }
        i += 1;
    }
    assert(all.take(i as int) =~= all);
    assert(exists_there@.take(i as int) =~= exists_there@);
    assert(views(out@).len() == out@.len());
    if out.len() == 0 {
        return None;
    }
    let ghost head = views(out@);
    let mut j: usize = 0;
    while j < searched.len()
        invariant
            j <= searched@.len(),
            known == views(searched@),
            views(out@) == head + known.take(j as int),
        decreases searched@.len() - j,
    {
        let ghost before = out@;
        out.push(searched[j].clone());
        assert(views(out@) =~= views(before).push(searched@[j as int]@));
        assert(views(out@) =~= head + known.take(j + 1));
        j += 1;
    }
    assert(known.take(j as int) =~= known);
    Some(out)
}

/// What is found of a folder that dynamic libraries may lie in: whether it exists, and whether the
/// headers and the program of FFmpeg lie in it.
pub struct LibraryFolder {
    pub exists_there: bool,
    pub has_headers: bool,
    pub has_program: bool,
}

/// A variable of the environment and its value.
pub struct EnvVariable {
    pub name: &'static str,
    pub value: String,
}

/// The names and the values of variables.
pub open spec fn variable_views(variables: Seq<EnvVariable>) -> Seq<(Seq<char>, Seq<char>)> {
    Seq::new(variables.len(), |i: int| (variables[i].name@, variables[i].value@))
}

/// The variables that tell where FFmpeg lies.
pub open spec fn ffmpeg_variables(
    platform: Platform,
    folder: Seq<char>,
    has_program: bool,
) -> Seq<(Seq<char>, Seq<char>)> {
    let bin = joined_path(platform, folder, "bin"@);
    let program = joined_path(platform, bin, "ffmpeg.exe"@);
    seq![("FFMPEG_DIR"@, folder)] + (if has_program {
        seq![("FFMPEG_DIR_EXE"@, program), ("FFMPEG_BINARY"@, program)]
    } else {
        Seq::empty()
    }) + seq![
        ("FFMPEG_DIR_BIN"@, bin),
        ("PKG_CONFIG_PATH"@, joined_path(platform, folder, "lib\\pkgconfig"@)),
        ("PKG_CONFIG_ALLOW_SYSTEM_LIBS"@, "1"@),
        ("PKG_CONFIG_ALLOW_SYSTEM_CFLAGS"@, "1"@),
    ]
}

/// The variables that the folders ask for: each that exists, is named after FFmpeg and holds its
/// headers.
pub open spec fn folder_variables(
    platform: Platform,
    folders: Seq<Seq<char>>,
    found: Seq<LibraryFolder>,
) -> Seq<(Seq<char>, Seq<char>)>
    decreases folders.len(),
{
    if folders.len() == 0 || folders.len() != found.len() {
        Seq::empty()
    } else {
        let before = folder_variables(platform, folders.drop_last(), found.drop_last());
        let here = found.last();
        if here.exists_there && here.has_headers && last_name(platform, folders.last())
            == "ffmpeg"@ {
            before + ffmpeg_variables(platform, folders.last(), here.has_program)
        } else {
            before
        }
    }
}

/// The variables that are set before the engine is loaded, in their order: where FFmpeg lies, if it
/// comes with the runtime, and what the folders ask for.
pub open spec fn variables_of(
    platform: Platform,
    runtime_dir: Seq<char>,
    found: Seq<LibraryFolder>,
) -> Seq<(Seq<char>, Seq<char>)> {
    let folders = library_folders(platform, runtime_dir);
    (if runtime_dir.len() > 0 && found[2].exists_there {
        seq![("FFMPEG_DIR"@, folders[2])]
    } else {
        Seq::empty()
    }) + folder_variables(platform, folders, found)
}

/// Adds a variable.
fn add_variable(out: &mut Vec<EnvVariable>, name: &'static str, value: String)
    ensures
        variable_views(final(out)@) == variable_views(old(out)@).push((name@, value@)),
{
    let ghost before = variable_views(out@);
    let ghost v = value@;
    out.push(EnvVariable { name, value });
    assert(variable_views(out@) =~= before.push((name@, v)));
}

/// Adds the variables that tell where FFmpeg lies.
fn add_ffmpeg_variables(
    platform: Platform,
    folder: &str,
    has_program: bool,
    out: &mut Vec<EnvVariable>,
)
    ensures
        variable_views(final(out)@) == variable_views(old(out)@) + ffmpeg_variables(
            platform,
            folder@,
            has_program,
        ),
{
    let ghost before = variable_views(out@);
    let bin: String = join_path(platform, folder, "bin");
    add_variable(out, "FFMPEG_DIR", folder.to_owned());
    if has_program {
        let program: String = join_path(platform, bin.as_str(), "ffmpeg.exe");
        add_variable(out, "FFMPEG_DIR_EXE", program.clone());
        add_variable(out, "FFMPEG_BINARY", program);
    }
    add_variable(out, "FFMPEG_DIR_BIN", bin);
    add_variable(out, "PKG_CONFIG_PATH", join_path(platform, folder, "lib\\pkgconfig"));
    add_variable(out, "PKG_CONFIG_ALLOW_SYSTEM_LIBS", "1".to_owned());
    add_variable(out, "PKG_CONFIG_ALLOW_SYSTEM_CFLAGS", "1".to_owned());
    assert(variable_views(out@) =~= before + ffmpeg_variables(platform, folder@, has_program));
}

/// The variables that are set before the engine is loaded, in their order, given what is found of
/// each of the folders that its libraries lie in.
pub fn runtime_variables(
    platform: Platform,
    runtime_dir: &str,
    found: &Vec<LibraryFolder>,
) -> (r: Vec<EnvVariable>)
    requires
        found@.len() == library_folders(platform, runtime_dir@).len(),
    ensures
        variable_views(r@) == variables_of(platform, runtime_dir@, found@),
{
    let folders: Vec<String> = library_search_folders(platform, runtime_dir);
    let ghost all = views(folders@);
    let mut out: Vec<EnvVariable> = Vec::new();
    assert(variable_views(out@) =~= Seq::<(Seq<char>, Seq<char>)>::empty());
    assert(all.len() == folders@.len());
    if !runtime_dir.is_empty() && found[2].exists_there {
        assert(all[2] == folders@[2]@);
        add_variable(&mut out, "FFMPEG_DIR", folders[2].clone());
    }
    let ghost start = variable_views(out@);
    let mut i: usize = 0;
    assert(start =~= start + folder_variables(platform, all.take(0), found@.take(0)));
    while i < folders.len()
        invariant
            i <= folders@.len(),
            folders@.len() == found@.len(),
            all == views(folders@),
            variable_views(out@) == start + folder_variables(
                platform,
                all.take(i as int),
                found@.take(i as int),
            ),
        decreases folders@.len() - i,
    {
        assert(all.take(i + 1).drop_last() =~= all.take(i as int));
        assert(all.take(i + 1).last() == folders@[i as int]@);
        assert(found@.take(i + 1).drop_last() =~= found@.take(i as int));
        let name: String = path_name(platform, folders[i].as_str());
        let ghost before = folder_variables(platform, all.take(i as int), found@.take(i as int));
        if found[i].exists_there && found[i].has_headers && same_text(name.as_str(), "ffmpeg") {
            add_ffmpeg_variables(platform, folders[i].as_str(), found[i].has_program, &mut out);
            assert(variable_views(out@) =~= start + (before + ffmpeg_variables(
                platform,
                folders@[i as int]@,
                found@[i as int].has_program,
            )));
        }
        i += 1;
    }
    assert(all.take(i as int) =~= all);
    assert(found@.take(i as int) =~= found@);
    assert(variable_views(out@) =~= variables_of(platform, runtime_dir@, found@));
    out
}

/// Which libraries are said to be missing: exactly those of which no file is there, in their order.
pub proof fn lemma_missing_libraries(
    platform: Platform,
    files: Seq<Seq<char>>,
    libraries: Seq<&'static str>,
)
    ensures
        missing_libraries(platform, files, libraries).len() == 0 <==> forall|i: int|
            0 <= i < libraries.len() ==> has_ffmpeg_library(
                platform,
                files,
                (#[trigger] libraries[i])@,
            ),
        forall|i: int|
            0 <= i < libraries.len() && !has_ffmpeg_library(
                platform,
                files,
                (#[trigger] libraries[i])@,
            ) ==> missing_libraries(platform, files, libraries).contains(
                missing_library_text(platform, libraries[i]@),
            ),
    decreases libraries.len(),
{
    if libraries.len() > 0 {
        let rest = libraries.drop_last();
        lemma_missing_libraries(platform, files, rest);
        let before = missing_libraries(platform, files, rest);
        let all = missing_libraries(platform, files, libraries);
        assert(libraries[libraries.len() - 1] == libraries.last());
        if all.len() == 0 {
            assert forall|i: int| 0 <= i < libraries.len() implies has_ffmpeg_library(
                platform,
                files,
                (#[trigger] libraries[i])@,
            ) by {
                if i < rest.len() {
                    assert(rest[i] == libraries[i]);
                }
            }
        }
        if forall|i: int|
            0 <= i < libraries.len() ==> has_ffmpeg_library(
                platform,
                files,
                (#[trigger] libraries[i])@,
            ) {
            assert forall|i: int| 0 <= i < rest.len() implies has_ffmpeg_library(
                platform,
                files,
                (#[trigger] rest[i])@,
            ) by {
                assert(rest[i] == libraries[i]);
            }
        }
        assert forall|i: int|
            0 <= i < libraries.len() && !has_ffmpeg_library(
                platform,
                files,
                (#[trigger] libraries[i])@,
            ) implies all.contains(missing_library_text(platform, libraries[i]@)) by {
            if i < rest.len() {
                assert(rest[i] == libraries[i]);
                let k = choose|k: int|
                    0 <= k < before.len() && before[k] == missing_library_text(
                        platform,
                        rest[i]@,
                    );
                assert(all[k] == before[k]);
            } else {
                assert(all[before.len() as int] == missing_library_text(platform, libraries[i]@));
            }
        }
    }
}

/// When the runtime is complete: its folder is there, with the bridge library, the library for live
/// audio, and the folder of FFmpeg with each of its libraries. A folder that is not there is all that is
/// said to be missing.
pub proof fn lemma_runtime_is_complete(
    platform: Platform,
    runtime_dir: Seq<char>,
    probe: RuntimeProbe,
)
    ensures
        missing_of(platform, runtime_dir, probe).len() == 0 <==> probe.dir_exists
            && probe.bridge_exists && probe.capture_exists && probe.ffmpeg_dir_exists && forall|i: int|
            0 <= i < ffmpeg_libraries(platform).len() ==> has_ffmpeg_library(
                platform,
                views(probe.ffmpeg_files@),
                (#[trigger] ffmpeg_libraries(platform)[i])@,
            ),
        !probe.dir_exists ==> missing_of(platform, runtime_dir, probe) == seq![
            "Runtime directory does not exist: "@ + runtime_dir,
        ],
        probe.dir_exists && !probe.bridge_exists ==> missing_of(platform, runtime_dir, probe)[0]
            == "Missing bridge library: "@ + bridge_library_file_name(platform)@,
        probe.dir_exists && probe.bridge_exists && !probe.capture_exists ==> missing_of(
            platform,
            runtime_dir,
            probe,
        )[0] == "Missing live audio library: "@ + audio_capture_library_file_name(platform)@,
{
    reveal(missing_of);
    lemma_missing_libraries(platform, views(probe.ffmpeg_files@), ffmpeg_libraries(platform));
}

/// Which backend an installed runtime is for: CUDA wherever a folder of it holds a library of CUDA, and
/// only there; else Vulkan where the bridge library is there; and none where the folder is not.
pub proof fn lemma_detected_backend(probe: RuntimeProbe)
    ensures
        ({
            let cuda = exists|i: int|
                0 <= i < probe.cuda_dirs@.len() && has_cuda_library(
                    views(#[trigger] probe.cuda_dirs@[i]@),
                );
            &&& !probe.dir_exists ==> detected_backend(probe) is None
            &&& probe.dir_exists && cuda ==> detected_backend(probe) == Some("cuda"@)
            &&& probe.dir_exists && !cuda && probe.bridge_exists ==> detected_backend(probe) == Some(
                "vulkan"@,
            )
            &&& probe.dir_exists && !cuda && !probe.bridge_exists ==> detected_backend(probe) is None
        }),
{
}

/// What is of a rank is in the list, and what is in the list is of a rank.
proof fn lemma_of_rank(list: Seq<Seq<char>>, rank: nat)
    ensures
        forall|y: Seq<char>|
            #[trigger] of_rank(list, rank).contains(y) <==> list.contains(y) && backend_rank(y)
                == rank,
    decreases list.len(),
{
    if list.len() > 0 {
        let rest = list.drop_last();
        lemma_of_rank(rest, rank);
        let before = of_rank(rest, rank);
        let all = of_rank(list, rank);
        assert forall|y: Seq<char>| #[trigger] all.contains(y) <==> list.contains(y)
            && backend_rank(y) == rank by {
            assert(before.contains(y) <==> rest.contains(y) && backend_rank(y) == rank);
            if list.contains(y) {
                let k = choose|k: int| 0 <= k < list.len() && list[k] == y;
                if k < rest.len() {
                    assert(rest[k] == y);
                }
            }
            if rest.contains(y) {
                let k = choose|k: int| 0 <= k < rest.len() && rest[k] == y;
                assert(list[k] == y);
            }
            assert(list[list.len() - 1] == list.last());
            if before.contains(y) {
                let k = choose|k: int| 0 <= k < before.len() && before[k] == y;
                assert(all[k] == y);
            }
            if backend_rank(list.last()) == rank {
                assert(all[before.len() as int] == list.last());
            }
            if all.contains(y) {
                let k = choose|k: int| 0 <= k < all.len() && all[k] == y;
                if k < before.len() {
                    assert(before[k] == y);
                }
            }
        }
    }
}

/// Putting the backends in the order of a system neither loses nor adds any. On Windows Vulkan comes
/// before CUDA, and both before any other; elsewhere the order stays as it is.
pub proof fn lemma_platform_order(platform: Platform, list: Seq<Seq<char>>)
    ensures
        forall|y: Seq<char>|
            #[trigger] platform_order(platform, list).contains(y) <==> list.contains(y),
        !(platform is Windows) ==> platform_order(platform, list) == list,
        platform is Windows ==> forall|i: int, j: int|
            0 <= i < j < platform_order(platform, list).len() ==> backend_rank(
                #[trigger] platform_order(platform, list)[i],
            ) <= backend_rank(#[trigger] platform_order(platform, list)[j]),
        backend_rank("vulkan"@) < backend_rank("cuda"@) < backend_rank("metal"@),
{
    reveal_strlit("vulkan");
    reveal_strlit("cuda");
    reveal_strlit("metal");
    assert(lowered("vulkan"@) =~= "vulkan"@);
    assert(lowered("cuda"@) =~= "cuda"@);
    assert(lowered("metal"@) =~= "metal"@);
    assert("cuda"@.len() != "vulkan"@.len() && "metal"@.len() != "vulkan"@.len() && "metal"@.len()
        != "cuda"@.len());
    lemma_of_rank(list, 0);
    lemma_of_rank(list, 1);
    lemma_of_rank(list, 2);
    if platform is Windows {
        let a = of_rank(list, 0);
        let b = of_rank(list, 1);
        let c = of_rank(list, 2);
        let all = a + b + c;
        assert forall|i: int| 0 <= i < all.len() implies (i < a.len() ==> backend_rank(
            #[trigger] all[i],
        ) == 0) && (a.len() <= i < a.len() + b.len() ==> backend_rank(all[i]) == 1) && (a.len()
            + b.len() <= i ==> backend_rank(all[i]) == 2) by {
            if i < a.len() {
                assert(a.contains(all[i]));
            } else if i < a.len() + b.len() {
                assert(all[i] == b[i - a.len()]);
                assert(b.contains(all[i]));
            } else {
                assert(all[i] == c[i - a.len() - b.len()]);
                assert(c.contains(all[i]));
            }
        }
        assert forall|y: Seq<char>| #[trigger] all.contains(y) <==> list.contains(y) by {
            if list.contains(y) {
                let part = if backend_rank(y) == 0 {
                    a
                } else if backend_rank(y) == 1 {
                    b
                } else {
                    c
                };
                assert(part.contains(y));
                let k = choose|k: int| 0 <= k < part.len() && part[k] == y;
                let at = if backend_rank(y) == 0 {
                    k
                } else if backend_rank(y) == 1 {
                    a.len() + k
                } else {
                    a.len() + b.len() + k
                };
                assert(all[at] == y);
            }
            if all.contains(y) {
                let k = choose|k: int| 0 <= k < all.len() && all[k] == y;
                assert(a.contains(y) || b.contains(y) || c.contains(y)) by {
                    if k < a.len() {
                        assert(a[k] == y);
                    } else if k < a.len() + b.len() {
                        assert(b[k - a.len()] == y);
                    } else {
                        assert(c[k - a.len() - b.len()] == y);
                    }
                }
            }
        }
    }
}

/// A name that is offered is one of those that are available, in lower case and without the white space
/// around it; a blank one is passed over.
proof fn lemma_clean_names(list: Seq<Seq<char>>)
    ensures
        forall|y: Seq<char>|
            #[trigger] clean_names(list).contains(y) <==> y.len() > 0 && exists|k: int|
                0 <= k < list.len() && lowered(stripped(#[trigger] list[k])) == y,
    decreases list.len(),
{
    if list.len() > 0 {
        let rest = list.drop_last();
        lemma_clean_names(rest);
        let before = clean_names(rest);
        let all = clean_names(list);
        assert forall|y: Seq<char>| #[trigger] all.contains(y) <==> y.len() > 0 && exists|k: int|
            0 <= k < list.len() && lowered(stripped(#[trigger] list[k])) == y by {
            if all.contains(y) {
                let m = choose|m: int| 0 <= m < all.len() && all[m] == y;
                if m < before.len() {
                    assert(before[m] == y);
                    assert(before.contains(y));
                    let k = choose|k: int|
                        0 <= k < rest.len() && lowered(stripped(#[trigger] rest[k])) == y;
                    assert(list[k] == rest[k]);
                } else {
                    assert(lowered(stripped(list[list.len() - 1])) == y);
                }
            }
            if y.len() > 0 && exists|k: int|
                0 <= k < list.len() && lowered(stripped(#[trigger] list[k])) == y {
                let k = choose|k: int|
                    0 <= k < list.len() && lowered(stripped(#[trigger] list[k])) == y;
                if k < rest.len() {
                    assert(rest[k] == list[k]);
                    assert(before.contains(y));
                    let m = choose|m: int| 0 <= m < before.len() && before[m] == y;
                    assert(all[m] == y);
                } else {
                    assert(all[before.len() as int] == y);
                }
            }
        }
    }
}

/// Which backends are offered: where some are available, these and no others, in lower case; else the
/// usual ones of the system: Vulkan and CUDA on Windows, Metal on macOS, Vulkan elsewhere. There is
/// always one.
pub proof fn lemma_offered_backends(platform: Platform, available: Seq<Seq<char>>)
    ensures
        ({
            let some = exists|k: int|
                0 <= k < available.len() && lowered(stripped(#[trigger] available[k])).len() > 0;
            &&& some ==> forall|y: Seq<char>|
                #[trigger] offered_backends(platform, Some(available)).contains(y) <==> y.len() > 0
                    && exists|k: int|
                    0 <= k < available.len() && lowered(stripped(#[trigger] available[k])) == y
            &&& !some ==> forall|y: Seq<char>|
                #[trigger] offered_backends(platform, Some(available)).contains(y)
                    <==> default_backends(platform).contains(y)
            &&& offered_backends(platform, Some(available)).len() > 0
        }),
        platform is Windows ==> default_backends(platform).contains("vulkan"@) && default_backends(
            platform,
        ).contains("cuda"@),
        platform is MacOs ==> default_backends(platform) == seq!["metal"@],
        platform is Linux || platform is Other ==> default_backends(platform) == seq!["vulkan"@],
{
    reveal(offered_backends);
    let clean = clean_names(available);
    let names = sorted_texts(clean);
    lemma_clean_names(available);
    lemma_sorted_texts(clean);
    let shown = if names.len() == 0 {
        default_backends(platform)
    } else {
        names
    };
    lemma_platform_order(platform, shown);
    let all = offered_backends(platform, Some(available));
    let some = exists|k: int|
        0 <= k < available.len() && lowered(stripped(#[trigger] available[k])).len() > 0;
    if some {
        let k = choose|k: int|
            0 <= k < available.len() && lowered(stripped(#[trigger] available[k])).len() > 0;
        let y = lowered(stripped(available[k]));
        assert(clean.contains(y));
        assert(names.contains(y));
    } else {
        if names.len() > 0 {
            assert(names.contains(names[0]));
            assert(clean.contains(names[0]));
        }
    }
    assert(shown.contains(shown[0]));
    assert(all.contains(shown[0]));
    if platform is Windows {
        assert(default_backends(platform)[0] == "vulkan"@);
        assert(default_backends(platform)[1] == "cuda"@);
    }
}

/// What the search for the first of a list comes to.
proof fn lemma_found_first<A>(list: Seq<A>, p: spec_fn(A) -> bool)
    ensures
        first_where(list, p) <= list.len(),
        first_where(list, p) < list.len() ==> p(list[first_where(list, p) as int]),
        forall|k: int| 0 <= k < first_where(list, p) ==> !p(#[trigger] list[k]),
    decreases list.len(),
{
    if list.len() > 0 && !p(list[0]) {
        let rest = list.drop_first();
        lemma_found_first(rest, p);
        assert forall|k: int| 0 <= k < first_where(list, p) implies !p(#[trigger] list[k]) by {
            if k > 0 {
                assert(list[k] == rest[k - 1]);
            }
        }
    }
}

/// Where the backend that is set stands among those that are offered: at its place, whatever its case;
/// at the first place where none is set or it is not offered.
pub proof fn lemma_backend_pos(backends: Seq<Seq<char>>, configured: Seq<char>)
    ensures
        backends.len() > 0 ==> backend_pos(backends, configured) < backends.len(),
        stripped(configured).len() == 0 ==> backend_pos(backends, configured) == 0,
        stripped(configured).len() > 0 && (exists|i: int|
            0 <= i < backends.len() && lowered(#[trigger] backends[i]) == lowered(
                stripped(configured),
            )) ==> lowered(backends[backend_pos(backends, configured) as int]) == lowered(
            stripped(configured),
        ),
{
    let name = stripped(configured);
    let p = |b: Seq<char>| lowered(b) == lowered(name);
    lemma_found_first(backends, p);
    if exists|i: int| 0 <= i < backends.len() && lowered(#[trigger] backends[i]) == lowered(name) {
        let i = choose|i: int|
            0 <= i < backends.len() && lowered(#[trigger] backends[i]) == lowered(name);
        assert(p(backends[i]));
    }
}

/// What an installed runtime changes: on Windows, where its backend is known, the choice turns to it, it
/// is added to the backends if it was not among them, and the settings name it; nothing else of the
/// settings changes. Elsewhere, and where none was found, nothing changes.
pub proof fn lemma_synced_choice(platform: Platform, c: BackendChoice, name: Seq<char>)
    ensures
        synced_choice(platform, c, None) == c,
        !(platform is Windows) ==> synced_choice(platform, c, Some(name)) == c,
        c.backends.len() == 0 ==> synced_choice(platform, c, Some(name)) == c,
        platform is Windows && c.backends.len() > 0 && stripped(name) == name && name.len() > 0 ==> {
            let after = synced_choice(platform, c, Some(name));
            let known = exists|i: int|
                0 <= i < c.backends.len() && lowered(#[trigger] c.backends[i]) == lowered(name);
            &&& after.index < after.backends.len()
            &&& lowered(after.backends[after.index as int]) == lowered(name)
            &&& known ==> after.backends == c.backends
            &&& forall|y: Seq<char>| c.backends.contains(y) ==> #[trigger] after.backends.contains(y)
            &&& lowered(stripped(after.settings.runtime_download_backend)) == lowered(name)
            &&& after.settings == (SettingsView {
                runtime_download_backend: after.settings.runtime_download_backend,
                ..c.settings
            })
        },
{
    reveal(synced_choice);
    if platform is Windows && c.backends.len() > 0 && stripped(name) == name && name.len() > 0 {
        let after = synced_choice(platform, c, Some(name));
        let known = exists|i: int|
            0 <= i < c.backends.len() && lowered(#[trigger] c.backends[i]) == lowered(name);
        let more = c.backends.push(name);
        lemma_sorted_texts(more);
        lemma_platform_order(platform, sorted_texts(more));
        lemma_backend_pos(after.backends, name);
        if !known {
            assert(more[c.backends.len() as int] == name);
            assert(more.contains(name));
            assert(sorted_texts(more).contains(name));
            assert(after.backends.contains(name));
            let k = choose|k: int| 0 <= k < after.backends.len() && after.backends[k] == name;
            assert(lowered(after.backends[k]) == lowered(name));
            assert forall|y: Seq<char>| c.backends.contains(y) implies #[trigger] after.backends.contains(
                y,
            ) by {
                let m = choose|m: int| 0 <= m < c.backends.len() && c.backends[m] == y;
                assert(more[m] == y);
                assert(more.contains(y));
                assert(sorted_texts(more).contains(y));
            }
        }
    }
}

/// Where the runtime is: in the first place that holds the bridge library, else in the first that is
/// there; where none is, in the place that is set, or the default one where none is set.
pub proof fn lemma_runtime_place(
    preferred: Seq<char>,
    mapped: Seq<char>,
    fallback: Seq<char>,
    probes: Seq<PlaceProbe>,
    i: int,
)
    ensures
        0 <= i < probes.len() && probes[i].dir_exists && probes[i].bridge_exists && (forall|k: int|
            0 <= k < i ==> !((#[trigger] probes[k]).dir_exists && probes[k].bridge_exists))
            ==> runtime_place(preferred, mapped, fallback, probes) == runtime_places(
            mapped,
            fallback,
        )[i],
        0 <= i < probes.len() && probes[i].dir_exists && (forall|k: int|
            0 <= k < probes.len() ==> !(#[trigger] probes[k]).bridge_exists) && (forall|k: int|
            0 <= k < i ==> !(#[trigger] probes[k]).dir_exists) ==> runtime_place(
            preferred,
            mapped,
            fallback,
            probes,
        ) == runtime_places(mapped, fallback)[i],
        (forall|k: int| 0 <= k < probes.len() ==> !(#[trigger] probes[k]).dir_exists) ==> {
            &&& preferred.len() == 0 ==> runtime_place(preferred, mapped, fallback, probes) == fallback
            &&& preferred.len() > 0 && stripped(mapped).len() > 0 ==> runtime_place(
                preferred,
                mapped,
                fallback,
                probes,
            ) == mapped
        },
{
    let bridge = |p: PlaceProbe| has_bridge_library(p.dir_exists, p.bridge_exists);
    let there = |p: PlaceProbe| p.dir_exists;
    lemma_found_first(probes, bridge);
    lemma_found_first(probes, there);
    if 0 <= i < probes.len() && probes[i].dir_exists && probes[i].bridge_exists && (forall|k: int|
        0 <= k < i ==> !((#[trigger] probes[k]).dir_exists && probes[k].bridge_exists)) {
        lemma_first_where(probes, bridge, i);
    }
    if 0 <= i < probes.len() && probes[i].dir_exists && (forall|k: int|
        0 <= k < i ==> !(#[trigger] probes[k]).dir_exists) {
        lemma_first_where(probes, there, i);
    }
    if first_where(probes, bridge) < probes.len() {
        let k = first_where(probes, bridge) as int;
        assert(probes[k].dir_exists && probes[k].bridge_exists);
    }
    if first_where(probes, there) < probes.len() {
        let k = first_where(probes, there) as int;
        assert(probes[k].dir_exists);
    }
}

/// Which folders are added to the search path: those that are there, each once but for case, and none
/// that is searched already; in the order in which they are given.
pub proof fn lemma_added_folders(
    folders: Seq<Seq<char>>,
    exists_there: Seq<bool>,
    searched: Seq<Seq<char>>,
    folder: Seq<char>,
    there: bool,
)
    requires
        folders.len() == exists_there.len(),
    ensures
        ({
            let before = added_folders(folders, exists_there, searched);
            let all = added_folders(folders.push(folder), exists_there.push(there), searched);
            &&& there && !crate::paths::holds_folded(searched, folder)
                && !crate::paths::holds_folded(before, folder) ==> all == before.push(folder)
            &&& !there || crate::paths::holds_folded(searched, folder)
                || crate::paths::holds_folded(before, folder) ==> all == before
        }),
{
    assert(folders.push(folder).drop_last() =~= folders);
    assert(exists_there.push(there).drop_last() =~= exists_there);
}

/// The script is run on the folder of the runtime: the folder is its last word, and the script is
/// the file that the shell is given.
pub proof fn lemma_unblock_words(platform: Platform, script: Seq<char>, runtime_dir: Seq<char>)
    ensures
        ({
            let words = unblock_words(platform, script, runtime_dir);
            &&& words.last() == runtime_dir
            &&& platform is Windows ==> exists|i: int|
                0 < i < words.len() && words[i - 1] == "-File"@ && #[trigger] words[i] == script
            &&& !(platform is Windows) ==> words == seq!["sh"@, script, runtime_dir]
        }),
{
    let words = unblock_words(platform, script, runtime_dir);
    if platform is Windows {
        assert(words[5] == script);
    }
}

/// A file is found by its prefix and its suffix, whatever stands between them; a file that lacks
/// one of them changes nothing.
pub proof fn lemma_affixed_file(
    names: Seq<Seq<char>>,
    prefix: Seq<char>,
    middle: Seq<char>,
    suffix: Seq<char>,
    other: Seq<char>,
)
    ensures
        has_affixed(names.push(prefix + middle + suffix), prefix, suffix),
        !has_affixed(Seq::empty(), prefix, suffix),
        !stands_at(other, prefix, 0) || !has_suffix(other, suffix) ==> has_affixed(
            names.push(other),
            prefix,
            suffix,
        ) == has_affixed(names, prefix, suffix),
{
    let name = prefix + middle + suffix;
    let more = names.push(name);
    assert(name.subrange(0, prefix.len() as int) =~= prefix);
    assert(name.skip(name.len() - suffix.len()) =~= suffix);
    assert(name.subrange(name.len() - suffix.len(), name.len() as int) =~= suffix);
    assert(stands_at(more[names.len() as int], prefix, 0));
    let list = names.push(other);
    if has_affixed(names, prefix, suffix) {
        let i = choose|i: int|
            0 <= i < names.len() && stands_at(#[trigger] names[i], prefix, 0) && has_suffix(
                names[i],
                suffix,
            );
        assert(list[i] == names[i]);
    }
    if !stands_at(other, prefix, 0) || !has_suffix(other, suffix) {
        if has_affixed(list, prefix, suffix) {
            let i = choose|i: int|
                0 <= i < list.len() && stands_at(#[trigger] list[i], prefix, 0) && has_suffix(
                    list[i],
                    suffix,
                );
            assert(names[i] == list[i]);
        }
    }
}

/// No variable is set where none of the folders is there; where the folder of the media libraries
/// is there, the first variable names it.
pub proof fn lemma_runtime_variables(
    platform: Platform,
    runtime_dir: Seq<char>,
    found: Seq<LibraryFolder>,
)
    requires
        runtime_dir.len() > 0,
        found.len() == 4,
    ensures
        !found[0].exists_there && !found[1].exists_there && !found[2].exists_there
            && !found[3].exists_there ==> variables_of(platform, runtime_dir, found).len() == 0,
        found[2].exists_there ==> variables_of(platform, runtime_dir, found).len() > 0
            && variables_of(platform, runtime_dir, found)[0] == (
            "FFMPEG_DIR"@,
            joined_path(platform, joined_path(platform, runtime_dir, "vendor"@), "ffmpeg"@),
        ),
{
    let folders = library_folders(platform, runtime_dir);
    reveal_with_fuel(folder_variables, 5);
    let a = folders.drop_last();
    let b = found.drop_last();
    assert(a.len() == 3 && b.len() == 3);
    assert(b.last() == found[2] && b.drop_last().last() == found[1]);
    assert(b.drop_last().drop_last().last() == found[0]);
}

} // verus!
