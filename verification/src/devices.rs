//! The devices that the engine can run on.
use crate::paths::Platform;
use crate::settings::{
    selected_gpu, selected_gpu_index_from_settings, AppSettings, SettingsView,
};
use crate::sizes::{format_size, size_text};
use crate::text::{
    all_digits, cat5, contains_text, decimal, digit_char, digits_value, first_pos, is_digit,
    lemma_first_pos, lowered, occurs_in, same_text, signed_decimal, signed_decimal_text, stripped,
    to_ascii_lowercase, trim,
};
use vstd::prelude::*;
use vstd::string::*;

verus! {

/// What the processor is called among the devices.
pub const AUDIO_DEVICE_CPU_LABEL: &'static str = "CPU (no GPU)";

/// What is said of the processor where it is the only device.
pub const CPU_ONLY_DETAIL: &'static str = "CPU (no GPU) - no compatible GPU backend detected, using CPU mode.";

/// A device that can be chosen.
#[derive(Debug, Clone)]
pub struct AudioDeviceOption {
    pub label: String,
    pub devices_value: String,
    pub main_gpu: i32,
    pub is_gpu: bool,
    pub detail_line: String,
}

/// What a device that can be chosen holds.
pub struct OptionView {
    pub label: Seq<char>,
    pub devices_value: Seq<char>,
    pub main_gpu: i32,
    pub is_gpu: bool,
    pub detail_line: Seq<char>,
}

impl View for AudioDeviceOption {
    type V = OptionView;

    open spec fn view(&self) -> OptionView {
        OptionView {
            label: self.label@,
            devices_value: self.devices_value@,
            main_gpu: self.main_gpu,
            is_gpu: self.is_gpu,
            detail_line: self.detail_line@,
        }
    }
}

/// The contents of a list of devices.
pub open spec fn option_views(options: Seq<AudioDeviceOption>) -> Seq<OptionView> {
    Seq::new(options.len(), |i: int| options[i]@)
}

/// A device as the engine reports it.
#[derive(Debug, Clone)]
pub struct BridgeDevice {
    pub index: i32,
    pub backend: String,
    pub name: String,
    pub description: String,
    pub memory_free: u64,
    pub memory_total: u64,
}

/// What a device that the engine reports holds.
pub struct DeviceView {
    pub index: i32,
    pub backend: Seq<char>,
    pub name: Seq<char>,
    pub description: Seq<char>,
    pub memory_free: u64,
    pub memory_total: u64,
}

impl View for BridgeDevice {
    type V = DeviceView;

    open spec fn view(&self) -> DeviceView {
        DeviceView {
            index: self.index,
            backend: self.backend@,
            name: self.name@,
            description: self.description@,
            memory_free: self.memory_free,
            memory_total: self.memory_total,
        }
    }
}

/// The contents of a list of devices that the engine reports.
pub open spec fn device_views(devices: Seq<BridgeDevice>) -> Seq<DeviceView> {
    Seq::new(devices.len(), |i: int| devices[i]@)
}

/// How much a backend is preferred, given its name in lower case.
pub open spec fn backend_priority(platform: Platform, backend: Seq<char>) -> i32 {
    let cuda = occurs_in("cuda"@, backend);
    let vulkan = occurs_in("vulkan"@, backend);
    let metal = occurs_in("metal"@, backend);
    match platform {
        Platform::Windows => if cuda {
            500
        } else if vulkan {
            400
        } else if metal {
            300
        } else {
            100
        },
        Platform::MacOs => if metal {
            500
        } else if vulkan {
            400
        } else if cuda {
            200
        } else {
            100
        },
        Platform::Linux => if vulkan {
            500
        } else if cuda {
            400
        } else if metal {
            200
        } else {
            100
        },
        Platform::Other => if vulkan {
            500
        } else if cuda {
            400
        } else if metal {
            300
        } else {
            100
        },
    }
}

/// How much a backend is preferred, given its name in lower case.
pub fn backend_priority_for_platform(platform: Platform, backend_norm: &str) -> (r: i32)
    ensures
        r == backend_priority(platform, backend_norm@),
{
    let cuda: bool = contains_text(backend_norm, "cuda");
    let vulkan: bool = contains_text(backend_norm, "vulkan");
    let metal: bool = contains_text(backend_norm, "metal");
    match platform {
        Platform::Windows => if cuda {
            500
        } else if vulkan {
            400
        } else if metal {
            300
        } else {
            100
        },
        Platform::MacOs => if metal {
            500
        } else if vulkan {
            400
        } else if cuda {
            200
        } else {
            100
        },
        Platform::Linux => if vulkan {
            500
        } else if cuda {
            400
        } else if metal {
            200
        } else {
            100
        },
        Platform::Other => if vulkan {
            500
        } else if cuda {
            400
        } else if metal {
            300
        } else {
            100
        },
    }
}

/// A text without surrounding white space, or what stands for it where nothing is left.
pub open spec fn or_default(text: Seq<char>, default: Seq<char>) -> Seq<char> {
    if stripped(text).len() == 0 {
        default
    } else {
        stripped(text)
    }
}

/// A text without surrounding white space, or what stands for it where nothing is left.
fn trimmed_or(text: &str, default: &str) -> (r: String)
    ensures
        r@ == or_default(text@, default@),
{
    let t: &str = trim(text);
    if t.is_empty() {
        default.to_owned()
    } else {
        t.to_owned()
    }
}

/// A GPU that competes with others for being offered.
pub struct GpuOffer {
    /// By what the GPU is known: its description, or its name, in lower case.
    pub identity: Seq<char>,
    pub priority: i32,
    pub option: OptionView,
}

/// The index of a GPU.
pub open spec fn gpu_index(index: i32) -> i32 {
    if index < 0 {
        0
    } else {
        index
    }
}

/// The GPU that a reported device is; `None` where it is the processor.
pub open spec fn offer_of(platform: Platform, d: DeviceView) -> Option<GpuOffer> {
    let backend = or_default(d.backend, "unknown"@);
    let name = or_default(d.name, "unnamed"@);
    let description = stripped(d.description);
    let shown = if description.len() > 0 {
        description
    } else {
        name
    };
    let index = gpu_index(d.index);
    let label = "GPU #"@ + signed_decimal(index as int) + " ("@ + backend + "): "@ + shown;
    if occurs_in("cpu"@, lowered(backend)) || lowered(name) == "cpu"@ {
        None
    } else {
        Some(
            GpuOffer {
                identity: lowered(shown),
                priority: backend_priority(platform, lowered(backend)),
                option: OptionView {
                    label,
                    devices_value: signed_decimal(index as int),
                    main_gpu: index,
                    is_gpu: true,
                    detail_line: label + " (free "@ + size_text(d.memory_free as nat) + " / total "@
                        + size_text(d.memory_total as nat) + ")"@,
                },
            },
        )
    }
}

/// Where a GPU with the identity and the index stands among the offers; their number where it does
/// not.
pub open spec fn offer_pos(offers: Seq<GpuOffer>, identity: Seq<char>, index: i32) -> nat
    decreases offers.len(),
{
    if offers.len() == 0 || (offers[0].identity == identity && offers[0].option.main_gpu == index) {
        0
    } else {
        1 + offer_pos(offers.drop_first(), identity, index)
    }
}

/// The offers with one more: of two for the same GPU the one with the higher priority stays, and
/// the earlier of two with the same.
pub open spec fn with_offer(offers: Seq<GpuOffer>, offer: GpuOffer) -> Seq<GpuOffer> {
    let at = offer_pos(offers, offer.identity, offer.option.main_gpu) as int;
    if at >= offers.len() {
        offers.push(offer)
    } else if offers[at].priority >= offer.priority {
        offers
    } else {
        offers.update(at, offer)
    }
}

/// The GPUs among the reported devices, each once.
pub open spec fn gpu_offers(platform: Platform, devices: Seq<DeviceView>) -> Seq<GpuOffer>
    decreases devices.len(),
{
    if devices.len() == 0 {
        Seq::empty()
    } else {
        let before = gpu_offers(platform, devices.drop_last());
        match offer_of(platform, devices.last()) {
            Some(offer) => with_offer(before, offer),
            None => before,
        }
    }
}

/// `list`, which goes up by index, with `x` put behind all whose index is no greater.
pub open spec fn placed_by_index(list: Seq<OptionView>, x: OptionView) -> Seq<OptionView>
    decreases list.len(),
{
    if list.len() == 0 || list.last().main_gpu <= x.main_gpu {
        list.push(x)
    } else {
        placed_by_index(list.drop_last(), x).push(list.last())
    }
}

/// The GPUs by index; those of one index keep their order.
pub open spec fn by_index(offers: Seq<GpuOffer>) -> Seq<OptionView>
    decreases offers.len(),
{
    if offers.len() == 0 {
        Seq::empty()
    } else {
        placed_by_index(by_index(offers.drop_last()), offers.last().option)
    }
}

/// The processor as a device.
pub open spec fn cpu_option(detail: Seq<char>) -> OptionView {
    OptionView {
        label: AUDIO_DEVICE_CPU_LABEL@,
        devices_value: "none"@,
        main_gpu: 0,
        is_gpu: false,
        detail_line: detail,
    }
}

/// The devices that can be chosen: the processor, then the GPUs.
#[verifier::opaque]
pub open spec fn device_options(platform: Platform, devices: Option<Seq<DeviceView>>) -> Seq<
    OptionView,
> {
    match devices {
        None => seq![cpu_option(AUDIO_DEVICE_CPU_LABEL@)],
        Some(list) => {
            let gpus = by_index(gpu_offers(platform, list));
            if gpus.len() == 0 {
                seq![cpu_option(CPU_ONLY_DETAIL@)]
            } else {
                seq![cpu_option(AUDIO_DEVICE_CPU_LABEL@)] + gpus
            }
        },
    }
}

/// A GPU that competes with others for being offered.
struct Offer {
    identity: String,
    priority: i32,
    option: AudioDeviceOption,
}

impl View for Offer {
    type V = GpuOffer;

    closed spec fn view(&self) -> GpuOffer {
        GpuOffer { identity: self.identity@, priority: self.priority, option: self.option@ }
    }
}

/// The contents of a list of offers.
spec fn offer_views(offers: Seq<Offer>) -> Seq<GpuOffer> {
    Seq::new(offers.len(), |i: int| offers[i]@)
}

/// The GPU that a reported device is.
fn make_offer(platform: Platform, d: &BridgeDevice) -> (r: Option<Offer>)
    ensures
        match r {
            Some(o) => offer_of(platform, d@) == Some(o@),
            None => offer_of(platform, d@) is None,
        },
{
    let backend: String = trimmed_or(d.backend.as_str(), "unknown");
    let name: String = trimmed_or(d.name.as_str(), "unnamed");
    let description: &str = trim(d.description.as_str());
    let backend_norm: String = to_ascii_lowercase(backend.as_str());
    let name_norm: String = to_ascii_lowercase(name.as_str());
    if contains_text(backend_norm.as_str(), "cpu") || same_text(name_norm.as_str(), "cpu") {
        return None;
    }
    let index: i32 = if d.index < 0 {
        0
    } else {
        d.index
    };
    let shown: &str = if description.is_empty() {
        name.as_str()
    } else {
        description
    };
    let number: String = signed_decimal_text(index);
    let mut label: String = cat5("GPU #", number.as_str(), " (", backend.as_str(), "): ");
    label.append(shown);
    let free: String = format_size(d.memory_free);
    let total: String = format_size(d.memory_total);
    let mut detail: String = cat5(label.as_str(), " (free ", free.as_str(), " / total ", total.as_str());
    detail.append(")");
    Some(
        Offer {
            identity: to_ascii_lowercase(shown),
            priority: backend_priority_for_platform(platform, backend_norm.as_str()),
            option: AudioDeviceOption {
                label,
                devices_value: number,
                main_gpu: index,
                is_gpu: true,
                detail_line: detail,
            },
        },
    )
}

/// Where a GPU with the identity and the index stands among the offers.
fn find_offer(offers: &Vec<Offer>, identity: &str, index: i32) -> (r: usize)
    ensures
        r == offer_pos(offer_views(offers@), identity@, index),
        r <= offers@.len(),
{
    let ghost all = offer_views(offers@);
    let mut i: usize = 0;
    assert(all.skip(0) =~= all);
    while i < offers.len()
        invariant
            i <= offers@.len(),
            all == offer_views(offers@),
            offer_pos(all, identity@, index) == i + offer_pos(
                all.skip(i as int),
                identity@,
                index,
            ),
        decreases offers@.len() - i,
    {
        assert(all.skip(i as int)[0] == offers@[i as int]@);
        assert(all.skip(i as int).drop_first() =~= all.skip(i + 1));
        if offers[i].option.main_gpu == index && same_text(offers[i].identity.as_str(), identity) {
            return i;
        }
        i += 1;
    }
    i
}

/// Adds an offer.
fn add_offer(offers: &mut Vec<Offer>, offer: Offer)
    ensures
        offer_views(final(offers)@) == with_offer(offer_views(old(offers)@), offer@),
{
    let ghost before = offers@;
    let ghost new = offer@;
    let at: usize = find_offer(offers, offer.identity.as_str(), offer.option.main_gpu);
    if at >= offers.len() {
        offers.push(offer);
        assert(offer_views(offers@) =~= offer_views(before).push(new));
    } else if offers[at].priority < offer.priority {
        offers.set(at, offer);
        assert(offer_views(offers@) =~= offer_views(before).update(at as int, new));
    }
}

/// Puts `x` behind all of `list` whose index is no greater.
fn place_by_index(list: &mut Vec<AudioDeviceOption>, x: AudioDeviceOption)
    ensures
        option_views(final(list)@) == placed_by_index(option_views(old(list)@), x@),
{
    let ghost start = list@;
    let ghost all = option_views(start);
    let mut at: usize = list.len();
    assert(all.take(at as int) =~= all);
    assert(placed_by_index(all.take(at as int), x@) + all.skip(at as int) =~= placed_by_index(
        all,
        x@,
    ));
    while at > 0 && list[at - 1].main_gpu > x.main_gpu
        invariant
            list@ == start,
            all == option_views(start),
            at <= start.len(),
            placed_by_index(all, x@) == placed_by_index(all.take(at as int), x@) + all.skip(
                at as int,
            ),
        decreases at,
    {
        proof {
            let here = all.take(at as int);
            assert(here.drop_last() =~= all.take(at - 1));
            assert(here.last() == start[at - 1]@);
            assert(placed_by_index(here.drop_last(), x@).push(here.last()) + all.skip(at as int)
                =~= placed_by_index(here.drop_last(), x@) + all.skip(at - 1));
        }
        at -= 1;
    }
    proof {
        let here = all.take(at as int);
        if at > 0 {
            assert(here.last() == start[at - 1]@);
        }
        assert(placed_by_index(here, x@) == here.push(x@));
    }
    list.insert(at, x);
    assert(option_views(list@) =~= all.take(at as int).push(x@) + all.skip(at as int));
}

/// The devices that can be chosen, given what the engine reports; `None` where it does not answer.
/// The processor comes first, then the GPUs by index. Where one GPU is reported by several
/// backends, the preferred one is offered.
pub fn enumerate_audio_device_options(platform: Platform, devices: Option<Vec<BridgeDevice>>) -> (r:
    Vec<AudioDeviceOption>)
    ensures
        option_views(r@) == device_options(
            platform,
            match devices {
                Some(list) => Some(device_views(list@)),
                None => None,
            },
        ),
{
    reveal(device_options);
    let mut options: Vec<AudioDeviceOption> = Vec::new();
    options.push(
        AudioDeviceOption {
            label: AUDIO_DEVICE_CPU_LABEL.to_owned(),
            devices_value: "none".to_owned(),
            main_gpu: 0,
            is_gpu: false,
            detail_line: AUDIO_DEVICE_CPU_LABEL.to_owned(),
        },
    );
    assert(option_views(options@) =~= seq![cpu_option(AUDIO_DEVICE_CPU_LABEL@)]);
    let list: Vec<BridgeDevice> = match devices {
        Some(list) => list,
        None => {
            return options;
        },
    };
    let ghost all = device_views(list@);
    let mut offers: Vec<Offer> = Vec::new();
    let mut i: usize = 0;
    assert(offer_views(offers@) =~= gpu_offers(platform, all.take(0)));
    while i < list.len()
        invariant
            i <= list@.len(),
            all == device_views(list@),
            offer_views(offers@) == gpu_offers(platform, all.take(i as int)),
        decreases list@.len() - i,
    {
        assert(all.take(i + 1).drop_last() =~= all.take(i as int));
        assert(all.take(i + 1).last() == list@[i as int]@);
        if let Some(offer) = make_offer(platform, &list[i]) {
            add_offer(&mut offers, offer);
        }
        i += 1;
    }
    assert(all.take(i as int) =~= all);
    let ghost chosen = offer_views(offers@);
    let mut gpus: Vec<AudioDeviceOption> = Vec::new();
    let mut k: usize = 0;
    assert(option_views(gpus@) =~= by_index(chosen.take(0)));
    while k < offers.len()
        invariant
            k <= offers@.len(),
            chosen == offer_views(offers@),
            option_views(gpus@) == by_index(chosen.take(k as int)),
        decreases offers@.len() - k,
    {
        assert(chosen.take(k + 1).drop_last() =~= chosen.take(k as int));
        assert(chosen.take(k + 1).last() == offers@[k as int]@);
        let own: &AudioDeviceOption = &offers[k].option;
        let copy: AudioDeviceOption = AudioDeviceOption {
            label: own.label.clone(),
            devices_value: own.devices_value.clone(),
            main_gpu: own.main_gpu,
            is_gpu: own.is_gpu,
            detail_line: own.detail_line.clone(),
        };
        place_by_index(&mut gpus, copy);
        k += 1;
    }
    assert(chosen.take(k as int) =~= chosen);
    if gpus.len() == 0 {
        let mut only: Vec<AudioDeviceOption> = Vec::new();
        only.push(
            AudioDeviceOption {
                label: AUDIO_DEVICE_CPU_LABEL.to_owned(),
                devices_value: "none".to_owned(),
                main_gpu: 0,
                is_gpu: false,
                detail_line: CPU_ONLY_DETAIL.to_owned(),
            },
        );
        assert(option_views(only@) =~= seq![cpu_option(CPU_ONLY_DETAIL@)]);
        return only;
    }
    let ghost head = option_views(options@);
    let ghost tail = option_views(gpus@);
    options.append(&mut gpus);
    assert(option_views(options@) =~= head + tail);
    options
}

/// The first of `list` of which `p` holds; its length where it holds of none.
pub open spec fn first_where<A>(list: Seq<A>, p: spec_fn(A) -> bool) -> nat
    decreases list.len(),
{
    if list.len() == 0 || p(list[0]) {
        0
    } else {
        1 + first_where(list.drop_first(), p)
    }
}

/// The position before which `p` holds of nothing, and at which it holds or the list ends, is the
/// first.
pub proof fn lemma_first_where<A>(list: Seq<A>, p: spec_fn(A) -> bool, n: int)
    requires
        0 <= n <= list.len(),
        forall|k: int| 0 <= k < n ==> !p(#[trigger] list[k]),
        n < list.len() ==> p(list[n]),
    ensures
        first_where(list, p) == n,
    decreases list.len(),
{
    if n > 0 {
        let rest = list.drop_first();
        assert forall|k: int| 0 <= k < n - 1 implies !p(#[trigger] rest[k]) by {
            assert(rest[k] == list[k + 1]);
        }
        assert(!p(list[0]));
        lemma_first_where(rest, p, n - 1);
    }
}

/// Whether a device is a GPU of the Metal backend, by what is shown of it.
pub open spec fn is_metal(o: OptionView) -> bool {
    occurs_in("metal"@, lowered(o.label)) || occurs_in("metal"@, lowered(o.detail_line))
}

/// Whether a device is a GPU of the Metal backend, by what is shown of it.
pub fn is_metal_gpu_option(device: &AudioDeviceOption) -> (r: bool)
    ensures
        r == is_metal(device@),
{
    let label: String = to_ascii_lowercase(device.label.as_str());
    let detail: String = to_ascii_lowercase(device.detail_line.as_str());
    contains_text(label.as_str(), "metal") || contains_text(detail.as_str(), "metal")
}

/// The GPU that the system prefers without being asked: on macOS the first of the Metal backend, or
/// the first of all; elsewhere none.
pub open spec fn preferred_gpu(platform: Platform, options: Seq<OptionView>) -> Option<nat> {
    let metal = first_where(options, |o: OptionView| o.is_gpu && is_metal(o));
    let any = first_where(options, |o: OptionView| o.is_gpu);
    if !(platform is MacOs) {
        None
    } else if metal < options.len() {
        Some(metal)
    } else if any < options.len() {
        Some(any)
    } else {
        None
    }
}

/// The first GPU.
fn find_gpu(options: &[AudioDeviceOption]) -> (r: usize)
    ensures
        r == first_where(option_views(options@), |o: OptionView| o.is_gpu),
        r <= options@.len(),
{
    let ghost p = |o: OptionView| o.is_gpu;
    let ghost all = option_views(options@);
    let mut i: usize = 0;
    while i < options.len() && !options[i].is_gpu
        invariant
            i <= options@.len(),
            all == option_views(options@),
            p == (|o: OptionView| o.is_gpu),
            forall|k: int| 0 <= k < i ==> !p(#[trigger] all[k]),
        decreases options@.len() - i,
    {
        assert(all[i as int] == options@[i as int]@);
        i += 1;
    }
    proof {
        if i < all.len() {
            assert(all[i as int] == options@[i as int]@);
        }
        lemma_first_where(all, p, i as int);
    }
    i
}

/// The first GPU of the Metal backend.
fn find_metal(options: &[AudioDeviceOption]) -> (r: usize)
    ensures
        r == first_where(option_views(options@), |o: OptionView| o.is_gpu && is_metal(o)),
        r <= options@.len(),
{
    let ghost p = |o: OptionView| o.is_gpu && is_metal(o);
    let ghost all = option_views(options@);
    let mut i: usize = 0;
    while i < options.len()
        invariant
            i <= options@.len(),
            all == option_views(options@),
            p == (|o: OptionView| o.is_gpu && is_metal(o)),
            forall|k: int| 0 <= k < i ==> !p(#[trigger] all[k]),
        decreases options@.len() - i,
    {
        assert(all[i as int] == options@[i as int]@);
        if options[i].is_gpu && is_metal_gpu_option(&options[i]) {
            proof {
                lemma_first_where(all, p, i as int);
            }
            return i;
        }
        i += 1;
    }
    proof {
        lemma_first_where(all, p, i as int);
    }
    i
}

/// The GPU that the system prefers without being asked.
pub fn preferred_platform_gpu_index(
    platform: Platform,
    devices: &[AudioDeviceOption],
) -> (r: Option<usize>)
    ensures
        match r {
            Some(i) => preferred_gpu(platform, option_views(devices@)) == Some(i as nat) && i
                < devices@.len(),
            None => preferred_gpu(platform, option_views(devices@)) is None,
        },
{
    match platform {
        Platform::MacOs => {},
        _ => {
            return None;
        },
    }
    let metal: usize = find_metal(devices);
    if metal < devices.len() {
        return Some(metal);
    }
    let any: usize = find_gpu(devices);
    if any < devices.len() {
        Some(any)
    } else {
        None
    }
}

/// The device that the settings select among those that can be chosen. Where the selected GPU is
/// not there, the first GPU takes its place; where none is, the first device.
#[verifier::opaque]
pub open spec fn selected_device(
    platform: Platform,
    options: Seq<OptionView>,
    s: SettingsView,
) -> nat {
    match selected_gpu(s) {
        None => if s.whisper_no_gpu {
            0
        } else {
            match preferred_gpu(platform, options) {
                Some(i) => i,
                None => 0,
            }
        },
        Some(gpu) => {
            let same = first_where(options, |o: OptionView| o.is_gpu && o.main_gpu == gpu);
            let listed = first_where(
                options,
                |o: OptionView| o.is_gpu && o.devices_value == signed_decimal(gpu as int),
            );
            let any = first_where(options, |o: OptionView| o.is_gpu);
            if same < options.len() {
                same
            } else if listed < options.len() {
                listed
            } else if any < options.len() {
                any
            } else {
                0
            }
        },
    }
}

/// The first GPU with the index.
fn find_gpu_index(options: &[AudioDeviceOption], gpu: i32) -> (r: usize)
    ensures
        r == first_where(
            option_views(options@),
            |o: OptionView| o.is_gpu && o.main_gpu == gpu,
        ),
        r <= options@.len(),
{
    let ghost p = |o: OptionView| o.is_gpu && o.main_gpu == gpu;
    let ghost all = option_views(options@);
    let mut i: usize = 0;
    while i < options.len() && !(options[i].is_gpu && options[i].main_gpu == gpu)
        invariant
            i <= options@.len(),
            all == option_views(options@),
            p == (|o: OptionView| o.is_gpu && o.main_gpu == gpu),
            forall|k: int| 0 <= k < i ==> !p(#[trigger] all[k]),
        decreases options@.len() - i,
    {
        assert(all[i as int] == options@[i as int]@);
        i += 1;
    }
    proof {
        if i < all.len() {
            assert(all[i as int] == options@[i as int]@);
        }
        lemma_first_where(all, p, i as int);
    }
    i
}

/// The first GPU with the value.
fn find_gpu_value(options: &[AudioDeviceOption], value: &str) -> (r: usize)
    ensures
        r == first_where(
            option_views(options@),
            |o: OptionView| o.is_gpu && o.devices_value == value@,
        ),
        r <= options@.len(),
{
    let ghost want = value@;
    let ghost p = |o: OptionView| o.is_gpu && o.devices_value == want;
    let ghost all = option_views(options@);
    let mut i: usize = 0;
    while i < options.len()
        invariant
            i <= options@.len(),
            all == option_views(options@),
            want == value@,
            p == (|o: OptionView| o.is_gpu && o.devices_value == want),
            forall|k: int| 0 <= k < i ==> !p(#[trigger] all[k]),
        decreases options@.len() - i,
    {
        assert(all[i as int] == options@[i as int]@);
        if options[i].is_gpu && same_text(options[i].devices_value.as_str(), value) {
            proof {
                lemma_first_where(all, p, i as int);
            }
            return i;
        }
        i += 1;
    }
    proof {
        lemma_first_where(all, p, i as int);
    }
    i
}

/// The device that the settings select among those that can be chosen.
pub fn resolve_audio_device_index(
    platform: Platform,
    devices: &[AudioDeviceOption],
    settings: &AppSettings,
) -> (r: usize)
    ensures
        r == selected_device(platform, option_views(devices@), settings@),
        r == 0 || r < devices@.len(),
{
    reveal(selected_device);
    match selected_gpu_index_from_settings(settings) {
        None => {
            if settings.whisper_no_gpu {
                return 0;
            }
            match preferred_platform_gpu_index(platform, devices) {
                Some(i) => i,
                None => 0,
            }
        },
        Some(gpu) => {
            let same: usize = find_gpu_index(devices, gpu);
            let number: String = signed_decimal_text(gpu);
            let listed: usize = find_gpu_value(devices, number.as_str());
            let any: usize = find_gpu(devices);
            proof {
                let want = number@;
                assert((|o: OptionView| o.is_gpu && o.devices_value == want) =~= (|o: OptionView|
                    o.is_gpu && o.devices_value == signed_decimal(gpu as int)));
            }
            if same < devices.len() {
                same
            } else if listed < devices.len() {
                listed
            } else if any < devices.len() {
                any
            } else {
                0
            }
        },
    }
}

/// What is shown for the selected GPU: its own label, else that of the first GPU, else that of the
/// processor.
pub open spec fn device_label(options: Seq<OptionView>, gpu: Option<i32>) -> Seq<char> {
    match gpu {
        None => AUDIO_DEVICE_CPU_LABEL@,
        Some(n) => {
            let index = gpu_index(n);
            let same = first_where(options, |o: OptionView| o.is_gpu && o.main_gpu == index);
            let any = first_where(options, |o: OptionView| o.is_gpu);
            if same < options.len() {
                options[same as int].label
            } else if any < options.len() {
                options[any as int].label
            } else {
                AUDIO_DEVICE_CPU_LABEL@
            }
        },
    }
}

/// What is shown for the selected GPU.
pub fn resolve_audio_device_label(
    options: &[AudioDeviceOption],
    selected_gpu_index: Option<i32>,
) -> (r: String)
    ensures
        r@ == device_label(option_views(options@), selected_gpu_index),
{
    match selected_gpu_index {
        None => AUDIO_DEVICE_CPU_LABEL.to_owned(),
        Some(n) => {
            let index: i32 = if n < 0 {
                0
            } else {
                n
            };
            let same: usize = find_gpu_index(options, index);
            if same < options.len() {
                return options[same].label.clone();
            }
            let any: usize = find_gpu(options);
            if any < options.len() {
                return options[any].label.clone();
            }
            AUDIO_DEVICE_CPU_LABEL.to_owned()
        },
    }
}

/// The name of the first reported device with the index, if it has one.
pub open spec fn device_name(devices: Seq<DeviceView>, index: i32) -> Option<Seq<char>> {
    let at = first_where(devices, |d: DeviceView| d.index == index);
    if index < 0 || at >= devices.len() || stripped(devices[at as int].name).len() == 0 {
        None
    } else {
        Some(stripped(devices[at as int].name))
    }
}

/// The first reported device with the index.
fn find_device(devices: &Vec<BridgeDevice>, index: i32) -> (r: usize)
    ensures
        r == first_where(device_views(devices@), |d: DeviceView| d.index == index),
        r <= devices@.len(),
        r < devices@.len() ==> devices@[r as int].index == index,
{
    let ghost p = |d: DeviceView| d.index == index;
    let ghost all = device_views(devices@);
    let mut i: usize = 0;
    while i < devices.len() && devices[i].index != index
        invariant
            i <= devices@.len(),
            all == device_views(devices@),
            p == (|d: DeviceView| d.index == index),
            forall|k: int| 0 <= k < i ==> !p(#[trigger] all[k]),
        decreases devices@.len() - i,
    {
        assert(all[i as int] == devices@[i as int]@);
        i += 1;
    }
    proof {
        if i < all.len() {
            assert(all[i as int] == devices@[i as int]@);
        }
        lemma_first_where(all, p, i as int);
    }
    i
}

/// The name of the reported device with the index; `None` where the engine does not answer.
pub fn resolve_bridge_device_name_by_index(
    devices: &Option<Vec<BridgeDevice>>,
    gpu_index: i32,
) -> (r: Option<String>)
    ensures
        match (devices, r) {
            (Some(list), Some(name)) => device_name(device_views(list@), gpu_index) == Some(name@),
            (Some(list), None) => device_name(device_views(list@), gpu_index) is None,
            (None, _) => r is None,
        },
{
    match devices {
        Some(list) => {
            if gpu_index < 0 {
                return None;
            }
            let at: usize = find_device(list, gpu_index);
            if at >= list.len() {
                return None;
            }
            let name: &str = trim(list[at].name.as_str());
            if name.is_empty() {
                None
            } else {
                Some(name.to_owned())
            }
        },
        None => None,
    }
}

/// Whether a device with the index is among those that are reported.
pub open spec fn reports_index(devices: Seq<BridgeDevice>, index: i32) -> bool {
    exists|i: int| 0 <= i < devices.len() && (#[trigger] devices[i]).index == index
}

/// Whether the engine reports a device with the index.
pub fn bridge_has_device_index(devices: &Option<Vec<BridgeDevice>>, gpu_index: i32) -> (r: bool)
    ensures
        r == (gpu_index >= 0 && *devices is Some && reports_index((*devices)->0@, gpu_index)),
{
    match devices {
        Some(list) => {
            if gpu_index < 0 {
                return false;
            }
            let mut i: usize = 0;
            while i < list.len()
                invariant
                    i <= list@.len(),
                    gpu_index >= 0,
                    *devices == Some(*list),
                    forall|k: int| 0 <= k < i ==> (#[trigger] list@[k]).index != gpu_index,
                decreases list@.len() - i,
            {
                if list[i].index == gpu_index {
                    assert(list@[i as int].index == gpu_index);
                    return true;
                }
                i += 1;
            }
            false
        },
        None => false,
    }
}

/// The settings with a GPU selected.
pub open spec fn with_gpu(s: SettingsView, o: OptionView) -> SettingsView {
    SettingsView {
        whisper_no_gpu: false,
        main_gpu: o.main_gpu,
        devices: o.devices_value,
        ..s
    }
}

/// The settings after a GPU was chosen for the user: the one at `index`, where they have neither
/// chosen one nor asked for the processor.
pub open spec fn auto_selected(
    s: SettingsView,
    options: Seq<OptionView>,
    index: usize,
) -> SettingsView {
    if !s.whisper_no_gpu && selected_gpu(s) is None && index < options.len()
        && options[index as int].is_gpu {
        with_gpu(s, options[index as int])
    } else {
        s
    }
}

/// Chooses a GPU for the user, and says whether that changes anything.
pub fn auto_select_gpu(
    settings: &mut AppSettings,
    devices: &[AudioDeviceOption],
    index: usize,
) -> (r: bool)
    ensures
        final(settings)@ == auto_selected(old(settings)@, option_views(devices@), index),
        r == (final(settings)@ != old(settings)@),
{
    assert(index < devices@.len() ==> option_views(devices@)[index as int]
        == devices@[index as int]@);
    crate::settings::should_auto_select_gpu_from_settings(settings)
        && apply_audio_device_to_settings_from_index(settings, devices, index)
}

/// The settings with a device selected.
pub open spec fn with_device(s: SettingsView, o: OptionView) -> SettingsView {
    if o.is_gpu {
        with_gpu(s, o)
    } else {
        SettingsView { whisper_no_gpu: true, main_gpu: 0, devices: Seq::empty(), ..s }
    }
}

/// Selects the device at `index` where it is a GPU, and says whether that changes anything.
pub fn apply_audio_device_to_settings_from_index(
    settings: &mut AppSettings,
    devices: &[AudioDeviceOption],
    index: usize,
) -> (r: bool)
    ensures
        ({
            let gpu = index < devices@.len() && devices@[index as int].is_gpu;
            &&& final(settings)@ == if gpu {
                with_gpu(old(settings)@, devices@[index as int]@)
            } else {
                old(settings)@
            }
            &&& r == (final(settings)@ != old(settings)@)
        }),
{
    if index >= devices.len() || !devices[index].is_gpu {
        return false;
    }
    let option: &AudioDeviceOption = &devices[index];
    let changed: bool = settings.whisper_no_gpu || settings.main_gpu != option.main_gpu
        || !same_text(settings.devices.as_str(), option.devices_value.as_str());
    settings.whisper_no_gpu = false;
    settings.main_gpu = option.main_gpu;
    settings.devices = option.devices_value.clone();
    changed
}

/// Selects the device at `index`, and says whether there is one.
pub fn apply_audio_device(
    settings: &mut AppSettings,
    devices: &[AudioDeviceOption],
    index: usize,
) -> (r: bool)
    ensures
        r == (index < devices@.len()),
        final(settings)@ == if index < devices@.len() {
            with_device(old(settings)@, devices@[index as int]@)
        } else {
            old(settings)@
        },
{
    if index >= devices.len() {
        return false;
    }
    let option: &AudioDeviceOption = &devices[index];
    if option.is_gpu {
        settings.whisper_no_gpu = false;
        settings.main_gpu = option.main_gpu;
        settings.devices = option.devices_value.clone();
    } else {
        settings.whisper_no_gpu = true;
        settings.devices = String::new();
        settings.main_gpu = 0;
        assert(settings.devices@ =~= Seq::empty());
    }
    true
}

/// The GPU that is selected is the one that the settings name afterwards, for every device whose
/// value is its index.
pub proof fn lemma_selected_after_choice(s: SettingsView, o: OptionView)
    requires
        o.is_gpu,
        o.main_gpu >= 0,
        o.devices_value == signed_decimal(o.main_gpu as int),
    ensures
        selected_gpu(with_device(s, o)) == Some(o.main_gpu),
{
    let d = o.devices_value;
    lemma_decimal_digits(o.main_gpu as nat);
    lemma_stripped_digits(d);
    lemma_first_pos(d, ',');
    assert(first_pos(d, ',') == d.len()) by {
        if first_pos(d, ',') < d.len() {
            assert(is_digit(d[first_pos(d, ',') as int]));
        }
    }
    assert(d.take(d.len() as int) =~= d);
    assert(is_digit(d[0]));
    assert(lowered(d) != lowered("none"@)) by {
        reveal_strlit("none");
        assert(lowered(d)[0] == d[0]);
        assert(lowered("none"@)[0] == 'n');
    }
}

/// After the processor is selected, the settings name no GPU.
pub proof fn lemma_no_gpu_after_cpu(s: SettingsView, o: OptionView)
    requires
        !o.is_gpu,
    ensures
        selected_gpu(with_device(s, o)) is None,
{
    assert(stripped(Seq::empty()) =~= Seq::<char>::empty());
}

/// The decimal digits of a number are digits and spell it.
pub proof fn lemma_decimal_digits(n: nat)
    ensures
        all_digits(decimal(n)),
        digits_value(decimal(n)) == n,
    decreases n,
{
    if n < 10 {
        let d = decimal(n);
        assert(d.len() == 1);
        assert(d.drop_last().len() == 0);
        assert(d.last() == digit_char(n));
        reveal_with_fuel(digits_value, 2);
        assert(is_digit(d[0]));
    } else {
        lemma_decimal_digits(n / 10);
        let d = decimal(n);
        let head = decimal(n / 10);
        assert(d.drop_last() =~= head);
        assert forall|i: int| 0 <= i < d.len() implies is_digit(#[trigger] d[i]) by {
            if i < head.len() {
                assert(d[i] == head[i]);
            }
        }
    }
}

/// Digits have no white space around them.
pub proof fn lemma_stripped_digits(s: Seq<char>)
    requires
        all_digits(s),
    ensures
        stripped(s) == s,
{
    assert(is_digit(s[0]));
    assert(is_digit(s[s.len() - 1]));
}

/// Which backend is preferred: on Windows CUDA, then Vulkan; on macOS Metal, then Vulkan; elsewhere
/// Vulkan, then CUDA. A backend that is none of these comes last.
pub proof fn lemma_backend_order(platform: Platform, a: Seq<char>, b: Seq<char>)
    ensures
        ({
            let best = if platform is Windows {
                "cuda"@
            } else if platform is MacOs {
                "metal"@
            } else {
                "vulkan"@
            };
            let next = if platform is Windows || platform is MacOs {
                "vulkan"@
            } else {
                "cuda"@
            };
            &&& occurs_in(best, a) && !occurs_in(best, b) ==> backend_priority(platform, a)
                > backend_priority(platform, b)
            &&& !occurs_in(best, a) && !occurs_in(best, b) && occurs_in(next, a) && !occurs_in(next, b)
                ==> backend_priority(platform, a) > backend_priority(platform, b)
            &&& (occurs_in("cuda"@, a) || occurs_in("vulkan"@, a) || occurs_in("metal"@, a))
                && !occurs_in("cuda"@, b) && !occurs_in("vulkan"@, b) && !occurs_in("metal"@, b)
                ==> backend_priority(platform, a) > backend_priority(platform, b)
        }),
{
}

/// What a device is offered as: the processor is not offered as a GPU; every other device is, under its
/// own index, with its backend and its description, or its name where it has none.
pub proof fn lemma_offer_of(platform: Platform, d: DeviceView)
    requires
        stripped(d.backend).len() > 0,
        stripped(d.name).len() > 0,
    ensures
        offer_of(platform, d) is None <==> occurs_in("cpu"@, lowered(stripped(d.backend))) || lowered(
            stripped(d.name),
        ) == "cpu"@,
        offer_of(platform, d) matches Some(offer) ==> {
            let shown = if stripped(d.description).len() > 0 {
                stripped(d.description)
            } else {
                stripped(d.name)
            };
            &&& offer.option.is_gpu
            &&& d.index >= 0 ==> offer.option.main_gpu == d.index
            &&& d.index < 0 ==> offer.option.main_gpu == 0
            &&& offer.option.devices_value == signed_decimal(offer.option.main_gpu as int)
            &&& offer.identity == lowered(shown)
            &&& offer.option.label == "GPU #"@ + offer.option.devices_value + " ("@ + stripped(
                d.backend,
            ) + "): "@ + shown
            &&& offer.option.label.is_prefix_of(offer.option.detail_line)
            &&& offer.priority == backend_priority(platform, lowered(stripped(d.backend)))
        },
{
    if let Some(offer) = offer_of(platform, d) {
        assert(offer.option.detail_line.take(offer.option.label.len() as int)
            =~= offer.option.label);
    }
}

/// Where an offer for a GPU stands, or that there is none.
proof fn lemma_offer_pos(offers: Seq<GpuOffer>, identity: Seq<char>, index: i32)
    ensures
        offer_pos(offers, identity, index) <= offers.len(),
        offer_pos(offers, identity, index) < offers.len() ==> offers[offer_pos(
            offers,
            identity,
            index,
        ) as int].identity == identity && offers[offer_pos(offers, identity, index) as int].option.main_gpu
            == index,
        forall|k: int|
            0 <= k < offer_pos(offers, identity, index) ==> (#[trigger] offers[k]).identity
                != identity || offers[k].option.main_gpu != index,
    decreases offers.len(),
{
    if offers.len() > 0 && !(offers[0].identity == identity && offers[0].option.main_gpu == index) {
        let rest = offers.drop_first();
        lemma_offer_pos(rest, identity, index);
        assert forall|k: int| 0 <= k < offer_pos(offers, identity, index) implies (
        #[trigger] offers[k]).identity != identity || offers[k].option.main_gpu != index by {
            if k > 0 {
                assert(offers[k] == rest[k - 1]);
            }
        }
    }
}

/// Which offer stands for a GPU that several backends report: the one of the backend that is preferred.
/// For every device that is no processor there is an offer of the same GPU whose backend is preferred
/// no less.
pub proof fn lemma_gpu_is_offered(platform: Platform, devices: Seq<DeviceView>, i: int) -> (k: int)
    requires
        0 <= i < devices.len(),
        offer_of(platform, devices[i]) is Some,
    ensures
        0 <= k < gpu_offers(platform, devices).len(),
        gpu_offers(platform, devices)[k].identity == offer_of(platform, devices[i])->0.identity,
        gpu_offers(platform, devices)[k].option.main_gpu == offer_of(
            platform,
            devices[i],
        )->0.option.main_gpu,
        gpu_offers(platform, devices)[k].priority >= offer_of(platform, devices[i])->0.priority,
    decreases devices.len(),
{
    let rest = devices.drop_last();
    let before = gpu_offers(platform, rest);
    let last = offer_of(platform, devices.last());
    if let Some(offer) = last {
        lemma_offer_pos(before, offer.identity, offer.option.main_gpu);
    }
    if i < rest.len() {
        assert(rest[i] == devices[i]);
        lemma_gpu_is_offered(platform, rest, i)
    } else {
        offer_pos(before, last->0.identity, last->0.option.main_gpu) as int
    }
}

/// Every offer is that of a device.
pub proof fn lemma_offer_has_device(platform: Platform, devices: Seq<DeviceView>, k: int) -> (i: int)
    requires
        0 <= k < gpu_offers(platform, devices).len(),
    ensures
        0 <= i < devices.len(),
        offer_of(platform, devices[i]) == Some(gpu_offers(platform, devices)[k]),
    decreases devices.len(),
{
    if devices.len() > 0 {
        let before = gpu_offers(platform, devices.drop_last());
        if k < before.len() && gpu_offers(platform, devices)[k] == before[k] {
            lemma_offer_has_device(platform, devices.drop_last(), k)
        } else {
            devices.len() - 1
        }
    } else {
        0
    }
}

/// Whether the devices go up by their index.
pub open spec fn ascending_indices(options: Seq<OptionView>) -> bool {
    forall|i: int, j: int|
        0 <= i < j < options.len() ==> (#[trigger] options[i]).main_gpu <= (
        #[trigger] options[j]).main_gpu
}

/// Putting a device in its place keeps the order and adds nothing else.
proof fn lemma_placed_by_index(list: Seq<OptionView>, x: OptionView)
    requires
        ascending_indices(list),
    ensures
        ascending_indices(placed_by_index(list, x)),
        placed_by_index(list, x).len() == list.len() + 1,
        placed_by_index(list, x).contains(x),
        forall|o: OptionView| list.contains(o) ==> #[trigger] placed_by_index(list, x).contains(o),
        forall|i: int|
            0 <= i < placed_by_index(list, x).len() ==> #[trigger] placed_by_index(list, x)[i] == x
                || list.contains(placed_by_index(list, x)[i]),
        list.len() > 0 && list.last().main_gpu > x.main_gpu ==> forall|i: int|
            0 <= i < placed_by_index(list, x).len() ==> (#[trigger] placed_by_index(
                list,
                x,
            )[i]).main_gpu <= list.last().main_gpu,
    decreases list.len(),
{
    let r = placed_by_index(list, x);
    if list.len() == 0 || list.last().main_gpu <= x.main_gpu {
        assert(r[list.len() as int] == x);
        assert forall|i: int, j: int| 0 <= i < j < r.len() implies (#[trigger] r[i]).main_gpu <= (
        #[trigger] r[j]).main_gpu by {
            assert(r[i] == list[i]);
            if j < list.len() {
                assert(r[j] == list[j]);
            } else if i < list.len() - 1 {
                assert(list[i].main_gpu <= list[list.len() - 1].main_gpu);
            }
        }
        assert forall|o: OptionView| list.contains(o) implies #[trigger] r.contains(o) by {
            let k = choose|k: int| 0 <= k < list.len() && list[k] == o;
            assert(r[k] == o);
        }
        assert forall|i: int| 0 <= i < r.len() implies #[trigger] r[i] == x || list.contains(r[i]) by {
            if i < list.len() {
                assert(r[i] == list[i]);
            }
        }
    } else {
        let rest = list.drop_last();
        let p = placed_by_index(rest, x);
        assert forall|i: int, j: int| 0 <= i < j < rest.len() implies (#[trigger] rest[i]).main_gpu
            <= (#[trigger] rest[j]).main_gpu by {
            assert(rest[i] == list[i] && rest[j] == list[j]);
        }
        lemma_placed_by_index(rest, x);
        assert(r == p.push(list.last()));
        assert forall|i: int| 0 <= i < p.len() implies (#[trigger] p[i]).main_gpu
            <= list.last().main_gpu by {
            if p[i] != x {
                assert(rest.contains(p[i]));
                let k = choose|k: int| 0 <= k < rest.len() && rest[k] == p[i];
                assert(list[k].main_gpu <= list[list.len() - 1].main_gpu);
            }
        }
        assert forall|i: int, j: int| 0 <= i < j < r.len() implies (#[trigger] r[i]).main_gpu <= (
        #[trigger] r[j]).main_gpu by {
            assert(r[i] == p[i]);
            if j < p.len() {
                assert(r[j] == p[j]);
            }
        }
        let kx = choose|k: int| 0 <= k < p.len() && p[k] == x;
        assert(r[kx] == x);
        assert forall|o: OptionView| list.contains(o) implies #[trigger] r.contains(o) by {
            let k = choose|k: int| 0 <= k < list.len() && list[k] == o;
            if k < rest.len() {
                assert(rest[k] == o);
                assert(p.contains(o));
                let m = choose|m: int| 0 <= m < p.len() && p[m] == o;
                assert(r[m] == o);
            } else {
                assert(r[p.len() as int] == o);
            }
        }
        assert forall|i: int| 0 <= i < r.len() implies #[trigger] r[i] == x || list.contains(r[i]) by {
            if i < p.len() {
                assert(r[i] == p[i]);
                if p[i] != x {
                    assert(rest.contains(p[i]));
                    let k = choose|k: int| 0 <= k < rest.len() && rest[k] == p[i];
                    assert(list[k] == r[i]);
                }
            } else {
                assert(list[list.len() - 1] == r[i]);
            }
        }
    }
}

/// Putting the offers in order neither loses nor adds any.
proof fn lemma_by_index(offers: Seq<GpuOffer>)
    ensures
        ascending_indices(by_index(offers)),
        by_index(offers).len() == offers.len(),
        forall|k: int|
            0 <= k < offers.len() ==> by_index(offers).contains((#[trigger] offers[k]).option),
        forall|i: int|
            0 <= i < by_index(offers).len() ==> exists|k: int|
                0 <= k < offers.len() && (#[trigger] offers[k]).option == #[trigger] by_index(
                    offers,
                )[i],
    decreases offers.len(),
{
    if offers.len() > 0 {
        let rest = offers.drop_last();
        lemma_by_index(rest);
        let before = by_index(rest);
        let x = offers.last().option;
        lemma_placed_by_index(before, x);
        let all = by_index(offers);
        assert(offers[offers.len() - 1].option == x);
        assert forall|k: int| 0 <= k < offers.len() implies all.contains(
            (#[trigger] offers[k]).option,
        ) by {
            if k < rest.len() {
                assert(rest[k] == offers[k]);
                assert(before.contains(rest[k].option));
            }
        }
        assert forall|i: int| 0 <= i < all.len() implies exists|k: int|
            0 <= k < offers.len() && (#[trigger] offers[k]).option == #[trigger] all[i] by {
            if all[i] != x {
                assert(before.contains(all[i]));
                let m = choose|m: int| 0 <= m < before.len() && before[m] == all[i];
                let k = choose|k: int|
                    0 <= k < rest.len() && (#[trigger] rest[k]).option == before[m];
                assert(offers[k].option == all[i]);
            }
        }
    }
}

/// What can be chosen: the processor, first of all, and behind it every GPU that was offered, by its
/// index; where none was offered or the devices are not known, the processor alone.
pub proof fn lemma_device_options(platform: Platform, list: Seq<DeviceView>)
    ensures
        ({
            let offers = gpu_offers(platform, list);
            let all = device_options(platform, Some(list));
            &&& all.len() == 1 + offers.len()
            &&& !all[0].is_gpu && all[0].devices_value == "none"@ && all[0].label
                == "CPU (no GPU)"@
            &&& ascending_indices(all.skip(1))
            &&& forall|k: int| 0 <= k < offers.len() ==> all.contains((#[trigger] offers[k]).option)
            &&& forall|i: int| 1 <= i < all.len() ==> (#[trigger] all[i]).is_gpu
        }),
        device_options(platform, None).len() == 1,
        !device_options(platform, None)[0].is_gpu,
{
    reveal(device_options);
    let offers = gpu_offers(platform, list);
    let gpus = by_index(offers);
    let all = device_options(platform, Some(list));
    lemma_by_index(offers);
    assert(all.skip(1) =~= gpus);
    assert forall|k: int| 0 <= k < offers.len() implies all.contains(
        (#[trigger] offers[k]).option,
    ) by {
        assert(gpus.contains(offers[k].option));
        let m = choose|m: int| 0 <= m < gpus.len() && gpus[m] == offers[k].option;
        assert(all[m + 1] == offers[k].option);
    }
    assert forall|i: int| 1 <= i < all.len() implies (#[trigger] all[i]).is_gpu by {
        assert(all[i] == gpus[i - 1]);
        let k = choose|k: int| 0 <= k < offers.len() && (#[trigger] offers[k]).option == gpus[i - 1];
        let d = lemma_offer_has_device(platform, list, k);
        assert(offers[k].option.is_gpu);
    }
}

/// What the search for the first of a list comes to.
proof fn lemma_found_first<A>(list: Seq<A>, p: spec_fn(A) -> bool)
    ensures
        first_where(list, p) <= list.len(),
        first_where(list, p) < list.len() ==> p(list[first_where(list, p) as int]),
        forall|k: int| 0 <= k < first_where(list, p) ==> !p(#[trigger] list[k]),
    decreases list.len(),
{
    if list.len() > 0 && !p(list[0]) {
        let rest = list.drop_first();
        lemma_found_first(rest, p);
        assert forall|k: int| 0 <= k < first_where(list, p) implies !p(#[trigger] list[k]) by {
            if k > 0 {
                assert(list[k] == rest[k - 1]);
            }
        }
    }
}

/// Which device is shown as selected: where the settings select a GPU that is there, that one; where
/// they select one that is not, still a GPU if there is any; where they ask for the processor, the first
/// of the list, which is the processor.
pub proof fn lemma_selected_device(platform: Platform, options: Seq<OptionView>, s: SettingsView)
    requires
        options.len() > 0,
    ensures
        ({
            let at = selected_device(platform, options, s);
            &&& at < options.len()
            &&& selected_gpu(s) matches Some(gpu) ==> (exists|i: int|
                0 <= i < options.len() && (#[trigger] options[i]).is_gpu && options[i].main_gpu
                    == gpu) ==> options[at as int].is_gpu && options[at as int].main_gpu == gpu
            &&& selected_gpu(s) is Some && (exists|i: int|
                0 <= i < options.len() && (#[trigger] options[i]).is_gpu)
                ==> options[at as int].is_gpu
            &&& selected_gpu(s) is None && s.whisper_no_gpu ==> at == 0
            &&& selected_gpu(s) is None && !(platform is MacOs) ==> at == 0
        }),
{
    reveal(selected_device);
    let any = |o: OptionView| o.is_gpu;
    lemma_found_first(options, any);
    lemma_preferred_gpu(platform, options);
    if let Some(gpu) = selected_gpu(s) {
        let same = |o: OptionView| o.is_gpu && o.main_gpu == gpu;
        let listed = |o: OptionView| o.is_gpu && o.devices_value == signed_decimal(gpu as int);
        lemma_found_first(options, same);
        lemma_found_first(options, listed);
        if exists|i: int|
            0 <= i < options.len() && (#[trigger] options[i]).is_gpu && options[i].main_gpu == gpu {
            let i = choose|i: int|
                0 <= i < options.len() && (#[trigger] options[i]).is_gpu && options[i].main_gpu
                    == gpu;
            assert(same(options[i]));
        }
        if exists|i: int| 0 <= i < options.len() && (#[trigger] options[i]).is_gpu {
            let i = choose|i: int| 0 <= i < options.len() && (#[trigger] options[i]).is_gpu;
            assert(any(options[i]));
        }
    }
}

/// Which GPU the system prefers by itself: none but on macOS; there a GPU if there is any, and one of
/// the Metal backend if there is one.
pub proof fn lemma_preferred_gpu(platform: Platform, options: Seq<OptionView>)
    ensures
        !(platform is MacOs) ==> preferred_gpu(platform, options) is None,
        platform is MacOs ==> match preferred_gpu(platform, options) {
            Some(at) => at < options.len() && options[at as int].is_gpu && (!is_metal(
                options[at as int],
            ) ==> forall|i: int|
                0 <= i < options.len() ==> !(#[trigger] options[i]).is_gpu || !is_metal(options[i])),
            None => forall|i: int| 0 <= i < options.len() ==> !(#[trigger] options[i]).is_gpu,
        },
{
    let any = |o: OptionView| o.is_gpu;
    let metal = |o: OptionView| o.is_gpu && is_metal(o);
    lemma_found_first(options, any);
    lemma_found_first(options, metal);
    if platform is MacOs {
        if first_where(options, metal) >= options.len() {
            assert forall|i: int| 0 <= i < options.len() implies !(#[trigger] options[i]).is_gpu
                || !is_metal(options[i]) by {
                assert(!metal(options[i]));
            }
        }
        if preferred_gpu(platform, options) is None {
            assert forall|i: int| 0 <= i < options.len() implies !(
            #[trigger] options[i]).is_gpu by {
                assert(!any(options[i]));
            }
        }
    }
}

/// What choosing a device changes: which device the engine runs on, and no other setting. A GPU is
/// chosen for the user only where they have chosen none and have not asked for the processor.
pub proof fn lemma_device_choice(
    s: SettingsView,
    o: OptionView,
    options: Seq<OptionView>,
    index: usize,
)
    ensures
        with_device(s, o) == (SettingsView {
            whisper_no_gpu: with_device(s, o).whisper_no_gpu,
            main_gpu: with_device(s, o).main_gpu,
            devices: with_device(s, o).devices,
            ..s
        }),
        with_device(s, o).whisper_no_gpu == !o.is_gpu,
        o.is_gpu ==> with_device(s, o).main_gpu == o.main_gpu && with_device(s, o).devices
            == o.devices_value,
        s.whisper_no_gpu || selected_gpu(s) is Some ==> auto_selected(s, options, index) == s,
        index >= options.len() || !options[index as int].is_gpu ==> auto_selected(s, options, index)
            == s,
        !s.whisper_no_gpu && selected_gpu(s) is None && index < options.len()
            && options[index as int].is_gpu ==> auto_selected(s, options, index) == with_device(
            s,
            options[index as int],
        ),
{
}

/// The name of the device with an index: that of the first device that has it, without the white space
/// around it; none where no device has it or it is blank.
pub proof fn lemma_device_name(devices: Seq<DeviceView>, i: int)
    requires
        0 <= i < devices.len(),
        devices[i].index >= 0,
        forall|k: int| 0 <= k < i ==> (#[trigger] devices[k]).index != devices[i].index,
    ensures
        stripped(devices[i].name).len() > 0 ==> device_name(devices, devices[i].index) == Some(
            stripped(devices[i].name),
        ),
        stripped(devices[i].name).len() == 0 ==> device_name(devices, devices[i].index) is None,
{
    let index = devices[i].index;
    let p = |d: DeviceView| d.index == index;
    lemma_first_where(devices, p, i);
}

/// What the selected device is called: as the list calls it where it is there, as the first GPU where
/// another is, and as the processor where there is none or none is selected.
pub proof fn lemma_device_label(options: Seq<OptionView>, gpu: i32, i: int)
    requires
        0 <= i < options.len(),
        options[i].is_gpu,
        options[i].main_gpu == gpu,
        gpu >= 0,
        forall|k: int| 0 <= k < i ==> !(#[trigger] options[k]).is_gpu || options[k].main_gpu != gpu,
    ensures
        device_label(options, Some(gpu)) == options[i].label,
        device_label(options, None) == "CPU (no GPU)"@,
{
    let p = |o: OptionView| o.is_gpu && o.main_gpu == gpu;
    lemma_first_where(options, p, i);
}

} // verus!
