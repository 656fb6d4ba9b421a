//! Build configuration: paths, features, and the colour, font and component
//! tables, with the defaults used when no configuration file is present.
//! Tables keep their entries in the order they were written.
use vstd::prelude::*;

verus! {

/// Build options.
pub struct BuildConfig {
    pub minify: bool,
    pub sourcemaps: bool,
    pub target: String,
}

/// Where the colour, font, component, bridge and environment files are.
pub struct ConfigPaths {
    pub colors: String,
    pub fonts: String,
    pub components: String,
    pub bridge: String,
    pub env: String,
}

/// Where the stylesheet and the script are written.
pub struct OutputPaths {
    pub css: String,
    pub js: String,
}

/// Optional build features.
pub struct Features {
    pub auto_convert_colors: bool,
    pub generate_variations: bool,
    pub custom_properties: bool,
}

/// The top-level configuration.
pub struct Config {
    pub version: String,
    pub build: BuildConfig,
    pub config: ConfigPaths,
    pub output: OutputPaths,
    pub features: Features,
}

/// A configured colour: a literal, a reference to another colour, or both
/// forms with optional parts.
pub enum Color {
    Hex(String),
    Reference(String),
    Object { hex: Option<String>, oklch: Option<String>, reference: Option<String> },
}

/// Named colours and semantic aliases.
pub struct ColorsConfig {
    pub colors: Vec<(String, Color)>,
    pub semantic: Vec<(String, String)>,
}

/// A font family with its fallback and named weights.
pub struct FontStack {
    pub family: String,
    pub fallback: String,
    pub weights: Option<Vec<(String, u16)>>,
}

/// Named font stacks.
pub struct FontsConfig {
    pub fonts: Vec<(String, FontStack)>,
}

/// A component: its element or the component it extends, and the value of
/// each namespace attribute.
pub struct Component {
    pub element: Option<String>,
    pub extends: Option<String>,
    pub box_: Option<String>,
    pub face: Option<String>,
    pub text: Option<String>,
    pub layout: Option<String>,
    pub device: Option<String>,
    pub fx: Option<String>,
}

/// Named components.
pub struct ComponentsConfig {
    pub components: Vec<(String, Component)>,
}

fn owned(s: &str) -> (r: String)
    ensures
        r@ == s@,
{
    String::from_str(s)
}

/// The default colour table: name and hex literal.
pub open spec fn default_colors() -> Seq<(Seq<char>, Seq<char>)> {
    seq![
        ("brand-a"@, "#3B82F6"@),
        ("brand-b"@, "#10B981"@),
        ("brand-c"@, "#8B5CF6"@),
        ("brand-d"@, "#F59E0B"@),
        ("brand-e"@, "#EF4444"@),
        ("brand-f"@, "#EC4899"@),
        ("state-success"@, "#22C55E"@),
        ("state-warning"@, "#F59E0B"@),
        ("state-error"@, "#EF4444"@),
        ("state-info"@, "#3B82F6"@),
        ("base-0"@, "#FFFFFF"@),
        ("base-50"@, "#FAFAFA"@),
        ("base-100"@, "#F4F4F5"@),
        ("base-200"@, "#E4E4E7"@),
        ("base-300"@, "#D4D4D8"@),
        ("base-400"@, "#A1A1AA"@),
        ("base-500"@, "#71717A"@),
        ("base-600"@, "#52525B"@),
        ("base-700"@, "#3F3F46"@),
        ("base-800"@, "#27272A"@),
        ("base-900"@, "#18181B"@),
        ("base-950"@, "#09090B"@),
        ("base-1000"@, "#000000"@),
    ]
}

/// The default semantic aliases: alias and colour name.
pub open spec fn default_semantic() -> Seq<(Seq<char>, Seq<char>)> {
    seq![
        ("primary"@, "brand-a"@),
        ("secondary"@, "brand-b"@),
        ("success"@, "state-success"@),
        ("warning"@, "state-warning"@),
        ("error"@, "state-error"@),
        ("info"@, "state-info"@),
        ("text"@, "base-900"@),
        ("background"@, "base-0"@),
        ("border"@, "base-300"@),
    ]
}

/// The view of a colour entry written as a hex literal.
pub open spec fn hex_entry(e: (String, Color)) -> Option<(Seq<char>, Seq<char>)> {
    match e.1 {
        Color::Hex(h) => Some((e.0@, h@)),
        _ => None,
    }
}

impl Default for Config {
    /// Minified `es2020` output under `./dist`, the configuration files
    /// beside the project, and every feature on.
    fn default() -> (r: Config)
        ensures
            r.version@ == "1.0"@,
            r.build.minify && !r.build.sourcemaps,
            r.build.target@ == "es2020"@,
            r.config.colors@ == "./reedstyle.colors.yaml"@,
            r.config.fonts@ == "./reedstyle.fonts.yaml"@,
            r.config.components@ == "./reedstyle.components.yaml"@,
            r.config.bridge@ == "./reedstyle.bridge.yaml"@,
            r.config.env@ == "./reedstyle.env.yaml"@,
            r.output.css@ == "./dist/reedstyle.css"@,
            r.output.js@ == "./dist/reedstyle.js"@,
            r.features.auto_convert_colors && r.features.generate_variations && r.features.custom_properties,
    {
        Config {
            version: owned("1.0"),
            build: BuildConfig { minify: true, sourcemaps: false, target: owned("es2020") },
            config: ConfigPaths {
                colors: owned("./reedstyle.colors.yaml"),
                fonts: owned("./reedstyle.fonts.yaml"),
                components: owned("./reedstyle.components.yaml"),
                bridge: owned("./reedstyle.bridge.yaml"),
                env: owned("./reedstyle.env.yaml"),
            },
            output: OutputPaths { css: owned("./dist/reedstyle.css"), js: owned("./dist/reedstyle.js") },
            features: Features { auto_convert_colors: true, generate_variations: true, custom_properties: true },
        }
    }
}

impl Default for ColorsConfig {
    /// The brand, state and base grey palette as hex literals, and the
    /// semantic aliases onto it.
    fn default() -> (r: ColorsConfig)
        ensures
            r.colors@.len() == default_colors().len(),
            forall|i: int| 0 <= i < r.colors@.len() ==> hex_entry(#[trigger] r.colors@[i]) == Some(default_colors()[i]),
            r.semantic@.map_values(|e: (String, String)| (e.0@, e.1@)) == default_semantic(),
    {
        let mut colors: Vec<(String, Color)> = Vec::new();
        colors.push((owned("brand-a"), Color::Hex(owned("#3B82F6"))));
        colors.push((owned("brand-b"), Color::Hex(owned("#10B981"))));
        colors.push((owned("brand-c"), Color::Hex(owned("#8B5CF6"))));
        colors.push((owned("brand-d"), Color::Hex(owned("#F59E0B"))));
        colors.push((owned("brand-e"), Color::Hex(owned("#EF4444"))));
        colors.push((owned("brand-f"), Color::Hex(owned("#EC4899"))));
        colors.push((owned("state-success"), Color::Hex(owned("#22C55E"))));
        colors.push((owned("state-warning"), Color::Hex(owned("#F59E0B"))));
        colors.push((owned("state-error"), Color::Hex(owned("#EF4444"))));
        colors.push((owned("state-info"), Color::Hex(owned("#3B82F6"))));
        colors.push((owned("base-0"), Color::Hex(owned("#FFFFFF"))));
        colors.push((owned("base-50"), Color::Hex(owned("#FAFAFA"))));
        colors.push((owned("base-100"), Color::Hex(owned("#F4F4F5"))));
        colors.push((owned("base-200"), Color::Hex(owned("#E4E4E7"))));
        colors.push((owned("base-300"), Color::Hex(owned("#D4D4D8"))));
        colors.push((owned("base-400"), Color::Hex(owned("#A1A1AA"))));
        colors.push((owned("base-500"), Color::Hex(owned("#71717A"))));
        colors.push((owned("base-600"), Color::Hex(owned("#52525B"))));
        colors.push((owned("base-700"), Color::Hex(owned("#3F3F46"))));
        colors.push((owned("base-800"), Color::Hex(owned("#27272A"))));
        colors.push((owned("base-900"), Color::Hex(owned("#18181B"))));
        colors.push((owned("base-950"), Color::Hex(owned("#09090B"))));
        colors.push((owned("base-1000"), Color::Hex(owned("#000000"))));
        let mut semantic: Vec<(String, String)> = Vec::new();
        semantic.push((owned("primary"), owned("brand-a")));
        semantic.push((owned("secondary"), owned("brand-b")));
        semantic.push((owned("success"), owned("state-success")));
        semantic.push((owned("warning"), owned("state-warning")));
        semantic.push((owned("error"), owned("state-error")));
        semantic.push((owned("info"), owned("state-info")));
        semantic.push((owned("text"), owned("base-900")));
        semantic.push((owned("background"), owned("base-0")));
        semantic.push((owned("border"), owned("base-300")));
        assert(semantic@.map_values(|e: (String, String)| (e.0@, e.1@)) =~= default_semantic());
        ColorsConfig { colors, semantic }
    }
}

impl Default for FontsConfig {
    /// The system sans-serif stack with named weights, a serif stack and a
    /// monospace stack.
    fn default() -> (r: FontsConfig)
        ensures
            r.fonts@.len() == 3,
            r.fonts@[0].0@ == "font-a"@ && r.fonts@[0].1.fallback@ == "sans-serif"@,
            r.fonts@[1].0@ == "font-b"@ && r.fonts@[1].1.fallback@ == "serif"@,
            r.fonts@[2].0@ == "font-c"@ && r.fonts@[2].1.fallback@ == "monospace"@,
            r.fonts@[0].1.weights is Some && r.fonts@[0].1.weights->0@.len() == 8,
            r.fonts@[1].1.weights is None && r.fonts@[2].1.weights is None,
    {
        let mut weights: Vec<(String, u16)> = Vec::new();
        weights.push((owned("thin"), 100));
        weights.push((owned("light"), 300));
        weights.push((owned("normal"), 400));
        weights.push((owned("medium"), 500));
        weights.push((owned("semibold"), 600));
        weights.push((owned("bold"), 700));
        weights.push((owned("extrabold"), 800));
        weights.push((owned("black"), 900));
        let mut fonts: Vec<(String, FontStack)> = Vec::new();
        fonts.push((owned("font-a"), FontStack {
            family: owned("system-ui, -apple-system, 'Segoe UI', Roboto, 'Helvetica Neue', Arial, sans-serif"),
            fallback: owned("sans-serif"),
            weights: Some(weights),
        }));
        fonts.push((owned("font-b"), FontStack {
            family: owned("'Georgia', 'Cambria', 'Times New Roman', Times, serif"),
            fallback: owned("serif"),
            weights: None,
        }));
        fonts.push((owned("font-c"), FontStack {
            family: owned("'SF Mono', Monaco, 'Cascadia Code', 'Roboto Mono', Consolas, 'Courier New', monospace"),
            fallback: owned("monospace"),
            weights: None,
        }));
        FontsConfig { fonts }
    }
}

impl Default for ComponentsConfig {
    /// No components.
    fn default() -> (r: ComponentsConfig)
        ensures
            r.components@.len() == 0,
    {
        ComponentsConfig { components: Vec::new() }
    }
}

} // verus!
