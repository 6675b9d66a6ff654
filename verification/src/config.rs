//! The bar's configuration: module kinds, click actions, the parts of the
//! config file that hold no floating-point values, and the migration of
//! legacy keys in the raw file text.
use vstd::prelude::*;

use crate::text::chars_eq;
use crate::text::chars_of;
use crate::text::starts_with;
use crate::text::starts_with_chars;
use crate::text::string_of;
use crate::text::sub_chars;
use crate::text::append_chars;
use crate::text::append_str;
use crate::text::contains;
use crate::text::contains_chars;
use crate::text::drop_leading;
use crate::text::drop_leading_chars;
use crate::text::lines;
use crate::text::lines_of;
use crate::text::strip_prefix;
use crate::text::strip_prefix_chars;
use crate::text::trim;
use crate::text::trim_chars;
use crate::text::trim_start;
use crate::text::trim_start_chars;
use crate::text::is_ws;
use crate::text::lemma_lines_nl_free;
use crate::text::lemma_lines_push;
use crate::text::lemma_nl_free_drop_leading;
use crate::text::lemma_nl_free_skip;
use crate::text::lemma_nl_free_trim;
use crate::text::lemma_trim_end_prefix;
use crate::text::lemma_trim_push_ws;
use crate::text::lines_from;
use crate::text::nl_free;
use crate::text::strip_cr;
use crate::text::trim_end;

verus! {

broadcast use vstd::string::group_string_axioms;

/// `Option<String>` copied by value.
pub fn clone_opt(o: &Option<String>) -> (r: Option<String>)
    ensures
        r == *o,
{
    match o {
        Some(s) => Some(s.clone()),
        None => None,
    }
}

/// A string with the characters of a literal.
pub fn owned(s: &str) -> (r: String)
    ensures
        r@ == s@,
{
    let cs = chars_of(s);
    string_of(&cs)
}

// ---------------------------------------------------------------------------
// Click actions
// ---------------------------------------------------------------------------

/// Left / right click shell commands (`sh -c …`).
#[derive(Debug, Clone, PartialEq, Eq)]
pub struct ClickActions {
    /// Left-click command (also read from `on_left_click`).
    pub on_click: Option<String>,
    /// Right-click command.
    pub on_right_click: Option<String>,
}

/// A command that is present and not empty.
pub open spec fn nonempty_cmd(o: Option<String>) -> bool {
    o matches Some(s) && s@.len() > 0
}

impl Default for ClickActions {
    fn default() -> (r: Self)
        ensures
            r.on_click is None,
            r.on_right_click is None,
    {
        ClickActions { on_click: None, on_right_click: None }
    }
}

impl ClickActions {
    /// Some click command is configured (and not empty).
    pub fn has_any(&self) -> (r: bool)
        ensures
            r == (nonempty_cmd(self.on_click) || nonempty_cmd(self.on_right_click)),
    {
        let left = match &self.on_click {
            Some(s) => !s.as_str().is_empty(),
            None => false,
        };
        let right = match &self.on_right_click {
            Some(s) => !s.as_str().is_empty(),
            None => false,
        };
        left || right
    }

    /// A copy holding the same commands.
    pub fn copy(&self) -> (r: Self)
        ensures
            r == *self,
    {
        ClickActions { on_click: clone_opt(&self.on_click), on_right_click: clone_opt(&self.on_right_click) }
    }
}


// ---------------------------------------------------------------------------
// Module kinds
// ---------------------------------------------------------------------------

#[derive(Debug, Clone, PartialEq, Eq)]
pub enum ModuleKind {
    Workspaces,
    Window,
    Taskbar,
    Clock,
    Cpu,
    Memory,
    Gpu,
    Network,
    Volume,
    Brightness,
    Tray,
    Custom(String),
}

/// The mathematical value of a [`ModuleKind`].
pub enum ModuleKindView {
    Workspaces,
    Window,
    Taskbar,
    Clock,
    Cpu,
    Memory,
    Gpu,
    Network,
    Volume,
    Brightness,
    Tray,
    Custom(Seq<char>),
}

impl View for ModuleKind {
    type V = ModuleKindView;

    open spec fn view(&self) -> ModuleKindView {
        match self {
            ModuleKind::Workspaces => ModuleKindView::Workspaces,
            ModuleKind::Window => ModuleKindView::Window,
            ModuleKind::Taskbar => ModuleKindView::Taskbar,
            ModuleKind::Clock => ModuleKindView::Clock,
            ModuleKind::Cpu => ModuleKindView::Cpu,
            ModuleKind::Memory => ModuleKindView::Memory,
            ModuleKind::Gpu => ModuleKindView::Gpu,
            ModuleKind::Network => ModuleKindView::Network,
            ModuleKind::Volume => ModuleKindView::Volume,
            ModuleKind::Brightness => ModuleKindView::Brightness,
            ModuleKind::Tray => ModuleKindView::Tray,
            ModuleKind::Custom(id) => ModuleKindView::Custom(id@),
        }
    }
}

/// The name of a module kind in the config file.
pub open spec fn config_str(k: ModuleKindView) -> Seq<char> {
    match k {
        ModuleKindView::Workspaces => "workspaces"@,
        ModuleKindView::Window => "window"@,
        ModuleKindView::Taskbar => "taskbar"@,
        ModuleKindView::Clock => "clock"@,
        ModuleKindView::Cpu => "cpu"@,
        ModuleKindView::Memory => "memory"@,
        ModuleKindView::Gpu => "gpu"@,
        ModuleKindView::Network => "network"@,
        ModuleKindView::Volume => "volume"@,
        ModuleKindView::Brightness => "brightness"@,
        ModuleKindView::Tray => "tray"@,
        ModuleKindView::Custom(id) => "custom:"@ + id,
    }
}

/// `s` with every leading copy of `p` removed (`str::trim_start_matches`).
pub open spec fn strip_all_prefix(s: Seq<char>, p: Seq<char>) -> Seq<char>
    decreases s.len(),
{
    if p.len() > 0 && starts_with(s, p) {
        strip_all_prefix(s.skip(p.len() as int), p)
    } else {
        s
    }
}

/// `s` with every leading copy of `p` removed (`str::trim_start_matches`).
pub fn strip_all_prefix_chars(s: &Vec<char>, p: &Vec<char>) -> (r: Vec<char>)
    ensures
        r@ == strip_all_prefix(s@, p@),
{
    if p.len() == 0 {
        return sub_chars(s, 0, s.len());
    }
    let mut i: usize = 0;
    assert(s@.skip(0) == s@);
    loop
        invariant
            i <= s@.len(),
            p@.len() > 0,
            strip_all_prefix(s@, p@) == strip_all_prefix(s@.skip(i as int), p@),
        ensures
            i <= s@.len(),
            strip_all_prefix(s@, p@) == s@.skip(i as int),
        decreases s@.len() - i,
    {
        let rest = sub_chars(s, i, s.len());
        assert(rest@ == s@.skip(i as int));
        if !starts_with_chars(&rest, p) {
            break;
        }
        assert(s@.skip(i as int).skip(p@.len() as int) == s@.skip(i + p@.len()));
        i += p.len();
    }
    sub_chars(s, i, s.len())
}

/// The module kind a config-file name stands for: a built-in name, else a
/// custom island (`custom:<id>`, or a bare id).
pub open spec fn parse_kind(s: Seq<char>) -> ModuleKindView {
    if s == "workspaces"@ {
        ModuleKindView::Workspaces
    } else if s == "window"@ {
        ModuleKindView::Window
    } else if s == "taskbar"@ {
        ModuleKindView::Taskbar
    } else if s == "clock"@ {
        ModuleKindView::Clock
    } else if s == "cpu"@ {
        ModuleKindView::Cpu
    } else if s == "memory"@ {
        ModuleKindView::Memory
    } else if s == "gpu"@ {
        ModuleKindView::Gpu
    } else if s == "network"@ {
        ModuleKindView::Network
    } else if s == "volume"@ {
        ModuleKindView::Volume
    } else if s == "brightness"@ {
        ModuleKindView::Brightness
    } else if s == "tray"@ {
        ModuleKindView::Tray
    } else if starts_with(s, "custom:"@) {
        ModuleKindView::Custom(strip_all_prefix(s, "custom:"@))
    } else {
        ModuleKindView::Custom(s)
    }
}

/// `s` equals the literal `lit`.
fn is_lit(s: &Vec<char>, lit: &str) -> (r: bool)
    ensures
        r == (s@ == lit@),
{
    let l = chars_of(lit);
    chars_eq(s, &l)
}

impl ModuleKind {
    /// The name of this module kind in the config file.
    pub fn as_config_str(&self) -> (r: String)
        ensures
            r@ == config_str(self@),
    {
        match self {
            ModuleKind::Workspaces => owned("workspaces"),
            ModuleKind::Window => owned("window"),
            ModuleKind::Taskbar => owned("taskbar"),
            ModuleKind::Clock => owned("clock"),
            ModuleKind::Cpu => owned("cpu"),
            ModuleKind::Memory => owned("memory"),
            ModuleKind::Gpu => owned("gpu"),
            ModuleKind::Network => owned("network"),
            ModuleKind::Volume => owned("volume"),
            ModuleKind::Brightness => owned("brightness"),
            ModuleKind::Tray => owned("tray"),
            ModuleKind::Custom(id) => {
                let mut cs = chars_of("custom:");
                let ic = chars_of(id.as_str());
                let mut i: usize = 0;
                let ghost base = cs@;
                while i < ic.len()
                    invariant
                        i <= ic@.len(),
                        cs@ == base + ic@.take(i as int),
                    decreases ic@.len() - i,
                {
                    cs.push(ic[i]);
                    assert(base + ic@.take(i + 1) =~= (base + ic@.take(i as int)).push(ic@[i as int]));
                    i += 1;
                }
                assert(ic@.take(i as int) == ic@);
                string_of(&cs)
            },
        }
    }

    /// The module kind a config-file name stands for.
    pub fn from_config_str(s: &str) -> (r: ModuleKind)
        ensures
            r@ == parse_kind(s@),
    {
        let c = chars_of(s);
        if is_lit(&c, "workspaces") {
            ModuleKind::Workspaces
        } else if is_lit(&c, "window") {
            ModuleKind::Window
        } else if is_lit(&c, "taskbar") {
            ModuleKind::Taskbar
        } else if is_lit(&c, "clock") {
            ModuleKind::Clock
        } else if is_lit(&c, "cpu") {
            ModuleKind::Cpu
        } else if is_lit(&c, "memory") {
            ModuleKind::Memory
        } else if is_lit(&c, "gpu") {
            ModuleKind::Gpu
        } else if is_lit(&c, "network") {
            ModuleKind::Network
        } else if is_lit(&c, "volume") {
            ModuleKind::Volume
        } else if is_lit(&c, "brightness") {
            ModuleKind::Brightness
        } else if is_lit(&c, "tray") {
            ModuleKind::Tray
        } else {
            let p = chars_of("custom:");
            if starts_with_chars(&c, &p) {
                let mut i: usize = 0;
                assert(c@.skip(0) == c@);
                assert(p@.len() > 0) by {
                    reveal_strlit("custom:");
                }
                loop
                    invariant
                        i <= c@.len(),
                        p@.len() > 0,
                        strip_all_prefix(c@, p@) == strip_all_prefix(c@.skip(i as int), p@),
                    ensures
                        i <= c@.len(),
                        strip_all_prefix(c@, p@) == c@.skip(i as int),
                    decreases c@.len() - i,
                {
                    let rest = sub_chars(&c, i, c.len());
                    assert(rest@ == c@.skip(i as int));
                    if !starts_with_chars(&rest, &p) {
                        break;
                    }
                    assert(c@.skip(i as int).skip(p@.len() as int) == c@.skip(i + p@.len()));
                    i += p.len();
                }
                let id = sub_chars(&c, i, c.len());
                assert(id@ == c@.skip(i as int));
                ModuleKind::Custom(string_of(&id))
            } else {
                ModuleKind::Custom(string_of(&c))
            }
        }
    }
}

/// Writing a module kind to the config file and reading it back gives the
/// same kind, for every custom id that does not itself begin with `custom:`
/// (such an id loses every leading `custom:` on the way back).
pub proof fn lemma_config_str_roundtrip(k: ModuleKindView)
    requires
        !(k matches ModuleKindView::Custom(id) && starts_with(id, "custom:"@)),
    ensures
        parse_kind(config_str(k)) == k,
{
    reveal_strlit("workspaces");
    reveal_strlit("window");
    reveal_strlit("taskbar");
    reveal_strlit("clock");
    reveal_strlit("cpu");
    reveal_strlit("memory");
    reveal_strlit("gpu");
    reveal_strlit("network");
    reveal_strlit("volume");
    reveal_strlit("brightness");
    reveal_strlit("tray");
    reveal_strlit("custom:");
    if let ModuleKindView::Custom(id) = k {
        let s = "custom:"@ + id;
        assert(s[1] == 'u');
        assert(s[2] == 's');
        assert(s != "workspaces"@ && s != "window"@ && s != "taskbar"@ && s != "clock"@);
        assert(s != "cpu"@ && s != "memory"@ && s != "gpu"@ && s != "network"@);
        assert(s != "volume"@ && s != "brightness"@ && s != "tray"@);
        assert(s.take(7) =~= "custom:"@);
        assert(s.skip(7) =~= id);
        assert(strip_all_prefix(s, "custom:"@) == strip_all_prefix(id, "custom:"@));
        assert(strip_all_prefix(id, "custom:"@) == id);
        assert(starts_with(s, "custom:"@));
        assert(parse_kind(s) == ModuleKindView::Custom(id));
    } else {
        assert("workspaces"@.len() == 10 && "workspaces"@[0] == 'w');
        assert("window"@.len() == 6 && "window"@[0] == 'w');
        assert("taskbar"@.len() == 7 && "taskbar"@[0] == 't');
        assert("clock"@.len() == 5);
        assert("cpu"@.len() == 3 && "cpu"@[0] == 'c');
        assert("memory"@.len() == 6 && "memory"@[0] == 'm');
        assert("gpu"@.len() == 3 && "gpu"@[0] == 'g');
        assert("network"@.len() == 7 && "network"@[0] == 'n');
        assert("volume"@.len() == 6 && "volume"@[0] == 'v');
        assert("brightness"@.len() == 10 && "brightness"@[0] == 'b');
        assert("tray"@.len() == 4);
    }
}

// ---------------------------------------------------------------------------
// Config sections without floating-point values
// ---------------------------------------------------------------------------

/// Horizontal placement of StatusNotifierItem context menus.
#[derive(Debug, Clone, Copy, PartialEq, Eq)]
pub enum TrayMenuAlign {
    /// Draw the menu directly below (top bar) or above (bottom bar) the icon.
    Icon,
    /// Draw the menu at the trailing edge of the bar.
    End,
}

impl Default for TrayMenuAlign {
    fn default() -> (r: Self)
        ensures
            r == TrayMenuAlign::Icon,
    {
        TrayMenuAlign::Icon
    }
}

#[derive(Debug, Clone)]
pub struct BarConfig {
    /// Bar height in logical pixels.
    pub height: u32,
    /// Margin around the layer surface (top, right, bottom, left).
    pub margin: [i32; 4],
    /// Exclusive zone reserved for the bar. Set 0 for floating islands.
    pub exclusive_zone: i32,
    /// Anchor: "top" or "bottom".
    pub anchor: String,
    /// Optional Wayland output name. When unset, spawn on all screens.
    pub output: Option<String>,
    /// Horizontal padding inside the bar.
    pub padding: u16,
    /// Gap between islands.
    pub island_gap: u16,
    /// Draw separators between modules inside each island.
    pub separators: bool,
    /// Separator glyph between modules (when `separators` is true).
    pub separator: String,
    /// Extra pixels between the bar and a tray context menu.
    pub tray_menu_gap: i32,
    /// Where tray context menus are anchored.
    pub tray_menu_align: TrayMenuAlign,
}

impl Default for BarConfig {
    fn default() -> (r: Self)
        ensures
            r.height == 42,
            r.margin@ == seq![6i32, 10, 0, 10],
            r.exclusive_zone == 48,
            r.anchor@ == "top"@,
            r.output is None,
            r.padding == 4,
            r.island_gap == 12,
            r.separators,
            r.separator@ == "│"@,
            r.tray_menu_gap == 4,
            r.tray_menu_align == TrayMenuAlign::Icon,
    {
        let r = BarConfig {
            height: 42,
            margin: [6, 10, 0, 10],
            exclusive_zone: 48,
            anchor: owned("top"),
            output: None,
            padding: 4,
            island_gap: 12,
            separators: true,
            separator: owned("│"),
            tray_menu_gap: 4,
            tray_menu_align: TrayMenuAlign::Icon,
        };
        assert(r.margin@ =~= seq![6i32, 10, 0, 10]);
        r
    }
}

#[derive(Debug, Clone)]
pub struct WindowConfig {
    /// Max characters for the focused window title before ellipsis.
    pub max_chars: usize,
    pub clicks: ClickActions,
}

impl Default for WindowConfig {
    fn default() -> (r: Self)
        ensures
            r.max_chars == 120,
            r.clicks.on_click is None,
            r.clicks.on_right_click is None,
    {
        WindowConfig { max_chars: 120, clicks: ClickActions::default() }
    }
}

#[derive(Debug, Clone)]
pub struct NetworkConfig {
    /// Show signal strength percent when available.
    pub show_strength: bool,
    /// Prefer the Wi-Fi SSID / ethernet connection name over the interface.
    pub show_name: bool,
    /// Truncate the displayed name after this many characters.
    pub max_chars: usize,
    pub clicks: ClickActions,
}

impl Default for NetworkConfig {
    fn default() -> (r: Self)
        ensures
            !r.show_strength,
            r.show_name,
            r.max_chars == 24,
            r.clicks.on_click is None,
            r.clicks.on_right_click is None,
    {
        NetworkConfig {
            show_strength: false,
            show_name: true,
            max_chars: 24,
            clicks: ClickActions::default(),
        }
    }
}

#[derive(Debug, Clone)]
pub struct ClockConfig {
    pub format: String,
    pub tooltip_format: String,
    pub clicks: ClickActions,
}

impl Default for ClockConfig {
    fn default() -> (r: Self)
        ensures
            r.format@ == "%a %b %d ☀️ %I:%M %p"@,
            r.tooltip_format@ == "%Y-%m-%d %I:%M:%S %p"@,
            r.clicks.on_click is None,
            r.clicks.on_right_click is None,
    {
        ClockConfig {
            format: owned("%a %b %d ☀️ %I:%M %p"),
            tooltip_format: owned("%Y-%m-%d %I:%M:%S %p"),
            clicks: ClickActions::default(),
        }
    }
}

#[derive(Debug, Clone)]
pub struct WorkspacesConfig {
    pub clicks: ClickActions,
}

impl Default for WorkspacesConfig {
    fn default() -> (r: Self)
        ensures
            r.clicks.on_click is None,
            r.clicks.on_right_click is None,
    {
        WorkspacesConfig { clicks: ClickActions::default() }
    }
}

/// CPU / memory / GPU meter modules.
#[derive(Debug, Clone)]
pub struct MeterClickConfig {
    /// Display label (empty = module default: cpu / ram / gpu).
    pub label: String,
    /// Layout tokens: `{label}`, `{bar}` / `{meter}`, `{percent}` / `{pct}`.
    pub format: String,
    pub clicks: ClickActions,
}

impl Default for MeterClickConfig {
    fn default() -> (r: Self)
        ensures
            r.label@.len() == 0,
            r.format@ == "{label} {bar}"@,
            r.clicks.on_click is None,
            r.clicks.on_right_click is None,
    {
        MeterClickConfig {
            label: String::new(),
            format: owned("{label} {bar}"),
            clicks: ClickActions::default(),
        }
    }
}

#[derive(Debug, Clone)]
pub struct CustomModuleConfig {
    pub id: String,
    pub command: String,
    pub args: Vec<String>,
    pub interval_ms: u64,
    pub on_click: Option<String>,
    pub on_right_click: Option<String>,
    pub json: bool,
}

/// Default refresh interval of a custom module, in milliseconds.
pub fn default_interval() -> (r: u64)
    ensures
        r == 5000,
{
    5_000
}

#[derive(Debug, Clone)]
pub struct SysConfig {
    pub refresh_ms: u64,
}

impl Default for SysConfig {
    fn default() -> (r: Self)
        ensures
            r.refresh_ms == 1000,
    {
        SysConfig { refresh_ms: 1000 }
    }
}

#[derive(Debug, Clone, Copy, PartialEq, Eq)]
pub enum CompositorBackendKind {
    Auto,
    Niri,
    Hyprland,
    /// No compositor backend (`backend = "none"` in the config file).
    Disabled,
}

impl Default for CompositorBackendKind {
    fn default() -> (r: Self)
        ensures
            r == CompositorBackendKind::Auto,
    {
        CompositorBackendKind::Auto
    }
}

#[derive(Debug, Clone)]
pub struct CompositorConfig {
    /// Auto-detect from the environment (`NIRI_SOCKET` / `HYPRLAND_INSTANCE_SIGNATURE`).
    pub backend: CompositorBackendKind,
}

impl Default for CompositorConfig {
    fn default() -> (r: Self)
        ensures
            r.backend == CompositorBackendKind::Auto,
    {
        CompositorConfig { backend: CompositorBackendKind::Auto }
    }
}

// ---------------------------------------------------------------------------
// Click commands per module
// ---------------------------------------------------------------------------

/// The click actions of every module section of `[modules]`, and the custom
/// islands (which carry their own commands).
#[derive(Debug, Clone)]
pub struct ModuleClicks {
    pub workspaces: ClickActions,
    pub window: ClickActions,
    pub taskbar: ClickActions,
    pub clock: ClickActions,
    pub cpu: ClickActions,
    pub memory: ClickActions,
    pub gpu: ClickActions,
    pub network: ClickActions,
    pub volume: ClickActions,
    pub brightness: ClickActions,
    pub custom: Vec<CustomModuleConfig>,
}

/// The click commands of the volume module by default: mute toggle on the
/// left, the mixer on the right.
pub fn default_volume_clicks() -> (r: ClickActions)
    ensures
        r.on_click matches Some(c) && c@ == "wpctl set-mute @DEFAULT_AUDIO_SINK@ toggle"@,
        r.on_right_click matches Some(c) && c@ == "pwvucontrol"@,
{
    ClickActions {
        on_click: Some(owned("wpctl set-mute @DEFAULT_AUDIO_SINK@ toggle")),
        on_right_click: Some(owned("pwvucontrol")),
    }
}

/// The CPU meter by default: labelled `CPU`, opening `btop` on a click.
pub fn default_cpu_meter() -> (r: MeterClickConfig)
    ensures
        r.label@ == "CPU"@,
        r.format@ == "{label} {bar}"@,
        r.clicks.on_click matches Some(c) && c@ == "alacritty -e btop"@,
        r.clicks.on_right_click is None,
{
    MeterClickConfig {
        label: owned("CPU"),
        format: owned("{label} {bar}"),
        clicks: ClickActions { on_click: Some(owned("alacritty -e btop")), on_right_click: None },
    }
}

/// The memory meter by default: labelled `RAM`, without click commands.
pub fn default_memory_meter() -> (r: MeterClickConfig)
    ensures
        r.label@ == "RAM"@,
        r.format@ == "{label} {bar}"@,
        r.clicks.on_click is None,
        r.clicks.on_right_click is None,
{
    MeterClickConfig { label: owned("RAM"), format: owned("{label} {bar}"), clicks: ClickActions::default() }
}

/// The GPU meter by default: labelled `GPU`, opening `amdgpu_top` on a click.
pub fn default_gpu_meter() -> (r: MeterClickConfig)
    ensures
        r.label@ == "GPU"@,
        r.format@ == "{label} {bar}"@,
        r.clicks.on_click matches Some(c) && c@ == "alacritty -e amdgpu_top"@,
        r.clicks.on_right_click is None,
{
    MeterClickConfig {
        label: owned("GPU"),
        format: owned("{label} {bar}"),
        clicks: ClickActions { on_click: Some(owned("alacritty -e amdgpu_top")), on_right_click: None },
    }
}

/// The tray is shown by default.
pub fn default_tray_enabled() -> (r: bool)
    ensures
        r,
{
    true
}

/// No custom islands are configured by default.
pub fn default_custom_modules() -> (r: Vec<CustomModuleConfig>)
    ensures
        r@.len() == 0,
{
    Vec::new()
}

impl Default for ModuleClicks {
    /// The click commands of a default config: the volume, CPU and GPU
    /// commands above, none elsewhere, no custom islands.
    fn default() -> (r: Self)
        ensures
            r.volume.on_click matches Some(c) && c@ == "wpctl set-mute @DEFAULT_AUDIO_SINK@ toggle"@,
            r.volume.on_right_click matches Some(c) && c@ == "pwvucontrol"@,
            r.cpu.on_click matches Some(c) && c@ == "alacritty -e btop"@,
            r.cpu.on_right_click is None,
            r.gpu.on_click matches Some(c) && c@ == "alacritty -e amdgpu_top"@,
            r.gpu.on_right_click is None,
            r.workspaces.on_click is None && r.workspaces.on_right_click is None,
            r.window.on_click is None && r.window.on_right_click is None,
            r.taskbar.on_click is None && r.taskbar.on_right_click is None,
            r.clock.on_click is None && r.clock.on_right_click is None,
            r.memory.on_click is None && r.memory.on_right_click is None,
            r.network.on_click is None && r.network.on_right_click is None,
            r.brightness.on_click is None && r.brightness.on_right_click is None,
            r.custom@.len() == 0,
    {
        ModuleClicks {
            workspaces: ClickActions::default(),
            window: ClickActions::default(),
            taskbar: ClickActions::default(),
            clock: ClickActions::default(),
            cpu: default_cpu_meter().clicks,
            memory: ClickActions::default(),
            gpu: default_gpu_meter().clicks,
            network: ClickActions::default(),
            volume: default_volume_clicks(),
            brightness: ClickActions::default(),
            custom: default_custom_modules(),
        }
    }
}

/// The first custom island with id `id`.
pub open spec fn first_custom(cs: Seq<CustomModuleConfig>, id: Seq<char>) -> Option<
    CustomModuleConfig,
>
    decreases cs.len(),
{
    if cs.len() == 0 {
        None
    } else if cs[0].id@ == id {
        Some(cs[0])
    } else {
        first_custom(cs.drop_first(), id)
    }
}

/// The view of an optional string.
pub open spec fn opt_str_view(o: Option<String>) -> Option<Seq<char>> {
    match o {
        Some(s) => Some(s@),
        None => None,
    }
}

/// The view of an optional `&str`.
pub open spec fn opt_ref_view(o: Option<&str>) -> Option<Seq<char>> {
    match o {
        Some(s) => Some(s@),
        None => None,
    }
}

impl ModuleClicks {
    /// The click actions configured for a built-in module (`None` for the
    /// tray and for custom islands).
    pub open spec fn section(self, kind: ModuleKindView) -> Option<ClickActions> {
        match kind {
            ModuleKindView::Workspaces => Some(self.workspaces),
            ModuleKindView::Window => Some(self.window),
            ModuleKindView::Taskbar => Some(self.taskbar),
            ModuleKindView::Clock => Some(self.clock),
            ModuleKindView::Cpu => Some(self.cpu),
            ModuleKindView::Memory => Some(self.memory),
            ModuleKindView::Gpu => Some(self.gpu),
            ModuleKindView::Network => Some(self.network),
            ModuleKindView::Volume => Some(self.volume),
            ModuleKindView::Brightness => Some(self.brightness),
            _ => None,
        }
    }

    /// The shell command for a module mouse button: the section's command for
    /// a built-in module, the first matching island's for a custom one, none
    /// for the tray.
    pub open spec fn spec_click_command(self, kind: ModuleKindView, right: bool) -> Option<
        Seq<char>,
    > {
        match kind {
            ModuleKindView::Tray => None,
            ModuleKindView::Custom(id) => match first_custom(self.custom@, id) {
                Some(m) => opt_str_view(
                    if right {
                        m.on_right_click
                    } else {
                        m.on_click
                    },
                ),
                None => None,
            },
            _ => {
                let a = self.section(kind)->0;
                opt_str_view(
                    if right {
                        a.on_right_click
                    } else {
                        a.on_click
                    },
                )
            },
        }
    }

    fn section_ref(&self, kind: &ModuleKind) -> (r: Option<&ClickActions>)
        ensures
            match r {
                Some(a) => self.section(kind@) == Some(*a),
                None => self.section(kind@) is None,
            },
    {
        match kind {
            ModuleKind::Workspaces => Some(&self.workspaces),
            ModuleKind::Window => Some(&self.window),
            ModuleKind::Taskbar => Some(&self.taskbar),
            ModuleKind::Clock => Some(&self.clock),
            ModuleKind::Cpu => Some(&self.cpu),
            ModuleKind::Memory => Some(&self.memory),
            ModuleKind::Gpu => Some(&self.gpu),
            ModuleKind::Network => Some(&self.network),
            ModuleKind::Volume => Some(&self.volume),
            ModuleKind::Brightness => Some(&self.brightness),
            ModuleKind::Tray => None,
            ModuleKind::Custom(_) => None,
        }
    }

    /// The first custom island with the given id.
    fn find_custom(&self, id: &String) -> (r: Option<&CustomModuleConfig>)
        ensures
            match r {
                Some(m) => first_custom(self.custom@, id@) == Some(*m),
                None => first_custom(self.custom@, id@) is None,
            },
    {
        let idc = chars_of(id.as_str());
        let mut i: usize = 0;
        assert(self.custom@.skip(0) == self.custom@);
        while i < self.custom.len()
            invariant
                i <= self.custom@.len(),
                idc@ == id@,
                first_custom(self.custom@, id@) == first_custom(self.custom@.skip(i as int), id@),
            decreases self.custom@.len() - i,
        {
            let m = &self.custom[i];
            assert(self.custom@.skip(i as int)[0] == *m);
            let mc = chars_of(m.id.as_str());
            if chars_eq(&mc, &idc) {
                return Some(m);
            }
            assert(self.custom@.skip(i as int).drop_first() == self.custom@.skip(i + 1));
            i += 1;
        }
        None
    }

    /// Shell command for a module mouse button, if configured.
    pub fn click_command(&self, kind: &ModuleKind, right: bool) -> (r: Option<&str>)
        ensures
            opt_ref_view(r) == self.spec_click_command(kind@, right),
    {
        if let ModuleKind::Custom(id) = kind {
            return match self.find_custom(id) {
                Some(m) => {
                    let c = if right {
                        &m.on_right_click
                    } else {
                        &m.on_click
                    };
                    match c {
                        Some(s) => Some(s.as_str()),
                        None => None,
                    }
                },
                None => None,
            };
        }
        match self.section_ref(kind) {
            Some(a) => {
                let c = if right {
                    &a.on_right_click
                } else {
                    &a.on_click
                };
                match c {
                    Some(s) => Some(s.as_str()),
                    None => None,
                }
            },
            None => None,
        }
    }

    /// The click actions of a module: its section's, the first matching
    /// island's for a custom one, none for the tray.
    pub fn clicks_for(&self, kind: &ModuleKind) -> (r: ClickActions)
        ensures
            match kind@ {
                ModuleKindView::Tray => r.on_click is None && r.on_right_click is None,
                ModuleKindView::Custom(id) => match first_custom(self.custom@, id) {
                    Some(m) => r.on_click == m.on_click && r.on_right_click == m.on_right_click,
                    None => r.on_click is None && r.on_right_click is None,
                },
                _ => Some(r) == self.section(kind@),
            },
    {
        if let ModuleKind::Custom(id) = kind {
            return match self.find_custom(id) {
                Some(m) => ClickActions {
                    on_click: clone_opt(&m.on_click),
                    on_right_click: clone_opt(&m.on_right_click),
                },
                None => ClickActions::default(),
            };
        }
        match self.section_ref(kind) {
            Some(a) => a.copy(),
            None => ClickActions::default(),
        }
    }
}

/// The default left island: workspaces, taskbar, window title.
pub fn default_left_modules() -> (r: Vec<ModuleKind>)
    ensures
        r@.map_values(|k: ModuleKind| k@) == seq![
            ModuleKindView::Workspaces,
            ModuleKindView::Taskbar,
            ModuleKindView::Window,
        ],
{
    let r = vec![ModuleKind::Workspaces, ModuleKind::Taskbar, ModuleKind::Window];
    assert(r@.map_values(|k: ModuleKind| k@) =~= seq![
        ModuleKindView::Workspaces,
        ModuleKindView::Taskbar,
        ModuleKindView::Window,
    ]);
    r
}

/// The default center island: the clock.
pub fn default_center_modules() -> (r: Vec<ModuleKind>)
    ensures
        r@.map_values(|k: ModuleKind| k@) == seq![ModuleKindView::Clock],
{
    let r = vec![ModuleKind::Clock];
    assert(r@.map_values(|k: ModuleKind| k@) =~= seq![ModuleKindView::Clock]);
    r
}

/// The default right island: tray, meters, network, brightness, volume.
pub fn default_right_modules() -> (r: Vec<ModuleKind>)
    ensures
        r@.map_values(|k: ModuleKind| k@) == seq![
            ModuleKindView::Tray,
            ModuleKindView::Cpu,
            ModuleKindView::Memory,
            ModuleKindView::Gpu,
            ModuleKindView::Network,
            ModuleKindView::Brightness,
            ModuleKindView::Volume,
        ],
{
    let r = vec![
        ModuleKind::Tray,
        ModuleKind::Cpu,
        ModuleKind::Memory,
        ModuleKind::Gpu,
        ModuleKind::Network,
        ModuleKind::Brightness,
        ModuleKind::Volume,
    ];
    assert(r@.map_values(|k: ModuleKind| k@) =~= seq![
        ModuleKindView::Tray,
        ModuleKindView::Cpu,
        ModuleKindView::Memory,
        ModuleKindView::Gpu,
        ModuleKindView::Network,
        ModuleKindView::Brightness,
        ModuleKindView::Volume,
    ]);
    r
}

// ---------------------------------------------------------------------------
// Legacy keys
// ---------------------------------------------------------------------------

/// The value of a legacy flat `key = value` line (`volume_step = 0.05`).
pub open spec fn legacy_value(line: Seq<char>, key: Seq<char>) -> Option<Seq<char>> {
    match strip_prefix(trim(line), key) {
        Some(rest) => if starts_with(trim_start(rest), "="@) {
            Some(trim(drop_leading(trim_start(rest), '=')))
        } else {
            None
        },
        None => None,
    }
}

/// A legacy flat step line, which the migration removes.
pub open spec fn is_legacy_line(line: Seq<char>) -> bool {
    legacy_value(line, "volume_step"@) is Some || legacy_value(line, "brightness_step"@) is Some
}

/// The lines that are not legacy step lines, each followed by a newline.
pub open spec fn kept_lines(ls: Seq<Seq<char>>) -> Seq<char>
    decreases ls.len(),
{
    if ls.len() == 0 {
        Seq::empty()
    } else if is_legacy_line(ls.last()) {
        kept_lines(ls.drop_last())
    } else {
        kept_lines(ls.drop_last()) + ls.last() + "\n"@
    }
}

/// The value on the last legacy line for `key`.
pub open spec fn last_legacy_value(ls: Seq<Seq<char>>, key: Seq<char>) -> Option<Seq<char>>
    decreases ls.len(),
{
    if ls.len() == 0 {
        None
    } else {
        match legacy_value(ls.last(), key) {
            Some(v) => Some(v),
            None => last_legacy_value(ls.drop_last(), key),
        }
    }
}

/// A nested `[modules.<section>]` table setting `step`, appended unless the
/// text already has that table.
pub open spec fn step_table(text: Seq<char>, header: Seq<char>, step: Option<Seq<char>>) -> Seq<
    char,
> {
    match step {
        Some(v) => if contains(text, header) {
            Seq::empty()
        } else {
            "\n"@ + header + "\n"@ + "step = "@ + v + "\n"@
        },
        None => Seq::empty(),
    }
}

/// Legacy flat `volume_step` / `brightness_step` keys rewritten into nested
/// tables: the text is unchanged when it has neither key; otherwise its other
/// lines are kept and the last value of each key becomes `step` of a
/// `[modules.volume]` / `[modules.brightness]` table, unless that table is
/// already present.
pub open spec fn migrated(raw: Seq<char>) -> Seq<char> {
    let ls = lines(raw);
    let vol = last_legacy_value(ls, "volume_step"@);
    let bri = last_legacy_value(ls, "brightness_step"@);
    if vol is None && bri is None {
        raw
    } else {
        let out = kept_lines(ls);
        let out1 = out + step_table(out, "[modules.volume]"@, vol);
        out1 + step_table(out1, "[modules.brightness]"@, bri)
    }
}

fn legacy_value_of(line: &Vec<char>, key: &str) -> (r: Option<Vec<char>>)
    ensures
        match r {
            Some(v) => legacy_value(line@, key@) == Some(v@),
            None => legacy_value(line@, key@) is None,
        },
{
    let t = trim_chars(line);
    let k = chars_of(key);
    match strip_prefix_chars(&t, &k) {
        Some(rest) => {
            let rs = trim_start_chars(&rest);
            let eq = chars_of("=");
            if starts_with_chars(&rs, &eq) {
                let d = drop_leading_chars(&rs, '=');
                Some(trim_chars(&d))
            } else {
                None
            }
        },
        None => None,
    }
}

fn append_step_table(out: &mut Vec<char>, header: &str, step: &Option<Vec<char>>)
    ensures
        final(out)@ == old(out)@ + step_table(
            old(out)@,
            header@,
            match step {
                Some(v) => Some(v@),
                None => None,
            },
        ),
{
    if let Some(v) = step {
        let h = chars_of(header);
        if !contains_chars(out, &h) {
            append_str(out, "\n");
            append_chars(out, &h);
            append_str(out, "\n");
            append_str(out, "step = ");
            append_chars(out, v);
            append_str(out, "\n");
            assert(final(out)@ =~= old(out)@ + ("\n"@ + header@ + "\n"@ + "step = "@ + v@
                + "\n"@));
            return ;
        }
    }
    assert(old(out)@ =~= old(out)@ + Seq::<char>::empty());
}

/// Rewrite deprecated `volume_step` / `brightness_step` into nested tables
/// when needed.
pub fn migrate_legacy_module_keys(raw: &str) -> (r: String)
    ensures
        r@ == migrated(raw@),
{
    let rc = chars_of(raw);
    let ls = lines_of(&rc);
    let ghost lsv = crate::text::views(ls@);
    let mut volume_step: Option<Vec<char>> = None;
    let mut brightness_step: Option<Vec<char>> = None;
    let mut out: Vec<char> = Vec::new();
    let mut i: usize = 0;
    while i < ls.len()
        invariant
            i <= ls@.len(),
            lsv == crate::text::views(ls@),
            lsv.len() == ls@.len(),
            out@ == kept_lines(lsv.take(i as int)),
            match volume_step {
                Some(v) => last_legacy_value(lsv.take(i as int), "volume_step"@) == Some(v@),
                None => last_legacy_value(lsv.take(i as int), "volume_step"@) is None,
            },
            match brightness_step {
                Some(v) => last_legacy_value(lsv.take(i as int), "brightness_step"@) == Some(v@),
                None => last_legacy_value(lsv.take(i as int), "brightness_step"@) is None,
            },
        decreases ls@.len() - i,
    {
        let line = &ls[i];
        assert(lsv[i as int] == line@);
        assert(lsv.take(i + 1).drop_last() == lsv.take(i as int));
        assert(lsv.take(i + 1).last() == line@);
        let v = legacy_value_of(line, "volume_step");
        let b = legacy_value_of(line, "brightness_step");
        if v.is_some() {
            volume_step = v;
        } else if b.is_some() {
            brightness_step = b;
        } else {
            append_chars(&mut out, line);
            append_str(&mut out, "\n");
        }
        proof {
            reveal_strlit("volume_step");
            reveal_strlit("brightness_step");
            if legacy_value(line@, "volume_step"@) is Some {
                // A line cannot start with both keys.
                let t = trim(line@);
                assert(t.take(11) == "volume_step"@);
                assert(t.take(11)[0] == t[0]);
                assert(t[0] == 'v');
                if starts_with(t, "brightness_step"@) {
                    assert(t.take(15)[0] == t[0]);
                    assert(t[0] == 'b');
                }
                assert(legacy_value(line@, "brightness_step"@) is None);
            }
        }
        i += 1;
    }
    assert(lsv.take(i as int) == lsv);
    if volume_step.is_none() && brightness_step.is_none() {
        return string_of(&rc);
    }
    append_step_table(&mut out, "[modules.volume]", &volume_step);
    append_step_table(&mut out, "[modules.brightness]", &brightness_step);
    string_of(&out)
}

// ---------------------------------------------------------------------------
// Migrating twice
// ---------------------------------------------------------------------------

/// The lines `lines` reads back from the kept text: the lines that are not
/// legacy step lines, a trailing `\r` dropped.
pub open spec fn kept_view(ls: Seq<Seq<char>>) -> Seq<Seq<char>>
    decreases ls.len(),
{
    if ls.len() == 0 {
        Seq::empty()
    } else if is_legacy_line(ls.last()) {
        kept_view(ls.drop_last())
    } else {
        kept_view(ls.drop_last()).push(strip_cr(ls.last()))
    }
}

/// Whether a line is a legacy step line depends on its trimmed text only,
/// so a trailing `\r` does not change it.
proof fn lemma_strip_cr_legacy(l: Seq<char>)
    ensures
        is_legacy_line(strip_cr(l)) == is_legacy_line(l),
{
    if l.len() > 0 && l.last() == '\r' {
        assert(is_ws('\r'));
        assert(l.drop_last().push('\r') =~= l);
        lemma_trim_push_ws(l.drop_last(), '\r');
    }
}

/// A line whose trimmed text does not start with `v` or `b` is no legacy
/// step line.
proof fn lemma_not_legacy(l: Seq<char>)
    requires
        trim(l).len() == 0 || (trim(l)[0] != 'v' && trim(l)[0] != 'b'),
    ensures
        !is_legacy_line(l),
{
    reveal_strlit("volume_step");
    reveal_strlit("brightness_step");
    let t = trim(l);
    if starts_with(t, "volume_step"@) {
        assert(t.take(11)[0] == t[0]);
    }
    if starts_with(t, "brightness_step"@) {
        assert(t.take(15)[0] == t[0]);
    }
}

/// A line starting with a non-space `c` trims to a text starting with `c`.
proof fn lemma_trim_first(l: Seq<char>)
    requires
        l.len() > 0,
        !is_ws(l[0]),
    ensures
        trim(l).len() > 0,
        trim(l)[0] == l[0],
{
    assert(trim_start(l) == l);
    lemma_trim_end_prefix(l);
    assert(trim(l)[0] == l.take(trim(l).len() as int)[0]);
}

proof fn lemma_kept_lines(ls: Seq<Seq<char>>)
    requires
        forall|i: int| 0 <= i < ls.len() ==> nl_free(#[trigger] ls[i]),
    ensures
        kept_lines(ls).len() == 0 || kept_lines(ls).last() == '\n',
        lines(kept_lines(ls)) == kept_view(ls),
        forall|i: int| 0 <= i < kept_view(ls).len() ==> !is_legacy_line(#[trigger] kept_view(ls)[i]),
    decreases ls.len(),
{
    reveal_strlit("\n");
    if ls.len() == 0 {
        assert(lines_from(Seq::<char>::empty(), Seq::<char>::empty()) =~= Seq::<Seq<char>>::empty());
    } else {
        let rest = ls.drop_last();
        assert forall|i: int| 0 <= i < rest.len() implies nl_free(#[trigger] rest[i]) by {
            assert(rest[i] == ls[i]);
        }
        lemma_kept_lines(rest);
        let l = ls.last();
        assert(nl_free(l)) by {
            assert(ls[ls.len() - 1] == l);
        }
        if !is_legacy_line(l) {
            let k = kept_lines(rest);
            assert("\n"@ == seq!['\n']);
            lemma_lines_push(k, l);
            lemma_strip_cr_legacy(l);
            let kv = kept_view(ls);
            assert forall|i: int| 0 <= i < kv.len() implies !is_legacy_line(#[trigger] kv[i]) by {
                if i < kv.len() - 1 {
                    assert(kv[i] == kept_view(rest)[i]);
                }
            }
        }
    }
}

/// The value of a legacy line is newline-free when the line is.
proof fn lemma_legacy_value_nl_free(l: Seq<char>, key: Seq<char>)
    requires
        nl_free(l),
    ensures
        legacy_value(l, key) matches Some(v) ==> nl_free(v),
{
    lemma_nl_free_trim(l);
    let t = trim(l);
    if starts_with(t, key) {
        lemma_nl_free_skip(t, key.len() as int);
        let rest = t.skip(key.len() as int);
        lemma_nl_free_trim(rest);
        lemma_nl_free_drop_leading(trim_start(rest), '=');
        lemma_nl_free_trim(drop_leading(trim_start(rest), '='));
    }
}

proof fn lemma_last_legacy_nl_free(ls: Seq<Seq<char>>, key: Seq<char>)
    requires
        forall|i: int| 0 <= i < ls.len() ==> nl_free(#[trigger] ls[i]),
    ensures
        last_legacy_value(ls, key) matches Some(v) ==> nl_free(v),
    decreases ls.len(),
{
    if ls.len() > 0 {
        let rest = ls.drop_last();
        assert forall|i: int| 0 <= i < rest.len() implies nl_free(#[trigger] rest[i]) by {
            assert(rest[i] == ls[i]);
        }
        lemma_last_legacy_nl_free(rest, key);
        assert(nl_free(ls[ls.len() - 1]));
        lemma_legacy_value_nl_free(ls.last(), key);
    }
}

proof fn lemma_no_legacy_value(ls: Seq<Seq<char>>, key: Seq<char>)
    requires
        key == "volume_step"@ || key == "brightness_step"@,
        forall|i: int| 0 <= i < ls.len() ==> !is_legacy_line(#[trigger] ls[i]),
    ensures
        last_legacy_value(ls, key) is None,
    decreases ls.len(),
{
    if ls.len() > 0 {
        let rest = ls.drop_last();
        assert forall|i: int| 0 <= i < rest.len() implies !is_legacy_line(#[trigger] rest[i]) by {
            assert(rest[i] == ls[i]);
        }
        lemma_no_legacy_value(rest, key);
        assert(!is_legacy_line(ls[ls.len() - 1]));
    }
}

/// A step table adds lines that are not legacy step lines after the lines
/// of `text`.
proof fn lemma_table_lines(text: Seq<char>, header: Seq<char>, step: Option<Seq<char>>)
    requires
        text.len() == 0 || text.last() == '\n',
        header == "[modules.volume]"@ || header == "[modules.brightness]"@,
        step matches Some(v) ==> nl_free(v),
    ensures
        ({
            let t = text + step_table(text, header, step);
            &&& t.len() == 0 || t.last() == '\n'
            &&& lines(text).len() <= lines(t).len()
            &&& lines(t).take(lines(text).len() as int) == lines(text)
            &&& forall|i: int|
                lines(text).len() <= i < lines(t).len() ==> !is_legacy_line(#[trigger] lines(t)[i])
        }),
{
    reveal_strlit("\n");
    reveal_strlit("step = ");
    reveal_strlit("[modules.volume]");
    reveal_strlit("[modules.brightness]");
    assert("\n"@ == seq!['\n']);
    let t = text + step_table(text, header, step);
    match step {
        Some(v) => {
            if !contains(text, header) {
                let e = Seq::<char>::empty();
                let a1 = text + e + seq!['\n'];
                let a2 = a1 + header + seq!['\n'];
                let sl = "step = "@ + v;
                let a3 = a2 + sl + seq!['\n'];
                assert(t =~= a3);
                assert(nl_free(e));
                assert(nl_free(header));
                assert(nl_free(sl)) by {
                    assert forall|i: int| 0 <= i < sl.len() implies sl[i] != '\n' by {
                        if i >= 7 {
                            assert(sl[i] == v[i - 7]);
                        }
                    }
                }
                lemma_lines_push(text, e);
                lemma_lines_push(a1, header);
                lemma_lines_push(a2, sl);
                let n = lines(text).len();
                assert(lines(t) == lines(text).push(strip_cr(e)).push(strip_cr(header)).push(
                    strip_cr(sl),
                ));
                assert(lines(t).take(n as int) =~= lines(text));
                assert(strip_cr(e) == e);
                assert(trim(e) =~= e);
                lemma_not_legacy(e);
                assert(strip_cr(header) == header);
                assert(!is_ws(header[0]));
                lemma_trim_first(header);
                lemma_not_legacy(header);
                let sc = strip_cr(sl);
                assert(sc.len() > 0 && sc[0] == 's');
                assert(!is_ws('s'));
                lemma_trim_first(sc);
                lemma_not_legacy(sc);
                assert forall|i: int| n <= i < lines(t).len() implies !is_legacy_line(
                    #[trigger] lines(t)[i],
                ) by {
                    if i == n {
                        assert(lines(t)[i] == e);
                    } else if i == n + 1 {
                        assert(lines(t)[i] == header);
                    } else {
                        assert(lines(t)[i] == sc);
                    }
                }
            } else {
                assert(t =~= text);
                assert(lines(t).take(lines(text).len() as int) =~= lines(text));
            }
        },
        None => {
            assert(t =~= text);
            assert(lines(t).take(lines(text).len() as int) =~= lines(text));
        },
    }
}

/// Law: migrating an already migrated config changes nothing: the rewrite
/// leaves no legacy `volume_step` / `brightness_step` line behind.
pub proof fn lemma_migration_idempotent(raw: Seq<char>)
    ensures
        migrated(migrated(raw)) == migrated(raw),
{
    let ls = lines(raw);
    let vol = last_legacy_value(ls, "volume_step"@);
    let bri = last_legacy_value(ls, "brightness_step"@);
    if vol is None && bri is None {
        return;
    }
    lemma_lines_nl_free(Seq::empty(), raw);
    assert forall|i: int| 0 <= i < ls.len() implies nl_free(#[trigger] ls[i]) by {
        assert(ls[i] == lines_from(Seq::<char>::empty(), raw)[i]);
    }
    lemma_kept_lines(ls);
    lemma_last_legacy_nl_free(ls, "volume_step"@);
    lemma_last_legacy_nl_free(ls, "brightness_step"@);
    let out = kept_lines(ls);
    let out1 = out + step_table(out, "[modules.volume]"@, vol);
    let m = out1 + step_table(out1, "[modules.brightness]"@, bri);
    assert(m == migrated(raw));
    lemma_table_lines(out, "[modules.volume]"@, vol);
    lemma_table_lines(out1, "[modules.brightness]"@, bri);
    let lm = lines(m);
    let l1 = lines(out1);
    let l0 = lines(out);
    assert forall|i: int| 0 <= i < lm.len() implies !is_legacy_line(#[trigger] lm[i]) by {
        if i < l1.len() {
            assert(lm[i] == lm.take(l1.len() as int)[i]);
            if i < l0.len() {
                assert(l1[i] == l1.take(l0.len() as int)[i]);
                assert(l0[i] == kept_view(ls)[i]);
            } else {
                assert(lm[i] == l1[i]);
            }
        }
    }
    lemma_no_legacy_value(lm, "volume_step"@);
    lemma_no_legacy_value(lm, "brightness_step"@);
}

} // verus!
