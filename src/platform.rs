use vstd::prelude::*;

verus! {

/// Facts about the host that hold on any Linux system.
pub struct GenericPlatform {
    pub model: String,
    pub arch: String,
    pub cpu_name: String,
    pub kernel: String,
    pub os_name: String,
}

/// The host facts published under the platform category.
pub struct Platform {
    pub generic: GenericPlatform,
}

/// Starts the platform's background scanners. A generic host has none.
pub fn start() {
}

/// What the host offers to read its facts from, as read: `None` where a file could
/// not be read or a command's output was not text.
pub struct PlatformSources {
    /// The device-tree model file.
    pub device_tree_model: Option<String>,
    /// The DMI product name file.
    pub product_name: Option<String>,
    /// The DMI board name file.
    pub board_name: Option<String>,
    /// The output of `uname -m`; empty when the command could not run.
    pub machine: Option<String>,
    /// The output of `lscpu`.
    pub lscpu: Option<String>,
    /// The cpuinfo file.
    pub cpuinfo: Option<String>,
    /// The output of `uname -r`; empty when the command could not run.
    pub release: Option<String>,
    /// The os-release file.
    pub os_release: Option<String>,
}

/// `str::trim` of a text: leading and trailing white space removed.
pub uninterp spec fn trimmed(s: Seq<char>) -> Seq<char>;

/// `str::lines` of a text: its lines, without their line endings.
pub uninterp spec fn lines_of(s: Seq<char>) -> Seq<Seq<char>>;

pub open spec fn line_views(v: Seq<String>) -> Seq<Seq<char>> {
    v.map_values(|l: String| l@)
}

pub open spec fn starts_with(s: Seq<char>, p: Seq<char>) -> bool {
    p.len() <= s.len() && s.subrange(0, p.len() as int) == p
}

/// `s` without every leading and trailing `c`.
pub open spec fn strip_char(s: Seq<char>, c: char) -> Seq<char>
    decreases s.len(),
{
    if s.len() > 0 && s[0] == c {
        strip_char(s.drop_first(), c)
    } else if s.len() > 0 && s.last() == c {
        strip_char(s.drop_last(), c)
    } else {
        s
    }
}

/// `s` without every leading copy of a non-empty `p`.
pub open spec fn strip_prefix_all(s: Seq<char>, p: Seq<char>) -> Seq<char>
    decreases s.len(),
{
    if p.len() > 0 && starts_with(s, p) {
        strip_prefix_all(s.subrange(p.len() as int, s.len() as int), p)
    } else {
        s
    }
}

/// The text before the first `:`, or all of it.
pub open spec fn upto_colon(s: Seq<char>) -> Seq<char>
    decreases s.len(),
{
    if s.len() == 0 {
        s
    } else if s[0] == ':' {
        Seq::empty()
    } else {
        seq![s[0]] + upto_colon(s.drop_first())
    }
}

/// The text after the first `:`, if there is one.
pub open spec fn after_colon(s: Seq<char>) -> Option<Seq<char>>
    decreases s.len(),
{
    if s.len() == 0 {
        None
    } else if s[0] == ':' {
        Some(s.drop_first())
    } else {
        after_colon(s.drop_first())
    }
}

/// The second of the `:`-separated pieces of `s`.
pub open spec fn colon_field(s: Seq<char>) -> Option<Seq<char>> {
    match after_colon(s) {
        Some(t) => Some(upto_colon(t)),
        None => None,
    }
}

/// Relies on `str::trim`.
#[verifier::external_body]
fn trim_text(s: &str) -> (r: String)
    ensures
        r@ == trimmed(s@),
{
    s.trim().to_string()
}

/// Relies on `str::lines`.
#[verifier::external_body]
fn text_lines(s: &str) -> (r: Vec<String>)
    ensures
        line_views(r@) == lines_of(s@),
{
    s.lines().map(|l| l.to_string()).collect()
}

/// Relies on `str::starts_with` with a text pattern.
#[verifier::external_body]
fn has_prefix(s: &str, p: &str) -> (r: bool)
    ensures
        r == starts_with(s@, p@),
{
    s.starts_with(p)
}

/// Relies on `str::trim_matches` with a character pattern.
#[verifier::external_body]
fn trim_char(s: &str, c: char) -> (r: String)
    ensures
        r@ == strip_char(s@, c),
{
    s.trim_matches(c).to_string()
}

/// Relies on `str::trim_start_matches` with a text pattern.
#[verifier::external_body]
fn trim_prefix(s: &str, p: &str) -> (r: String)
    ensures
        r@ == strip_prefix_all(s@, p@),
{
    s.trim_start_matches(p).to_string()
}

/// Relies on `str::split` on `:` and `Iterator::nth(1)`: the second piece.
#[verifier::external_body]
fn second_colon_piece(s: &str) -> (r: Option<String>)
    ensures
        match r {
            Some(t) => colon_field(s@) == Some(t@),
            None => colon_field(s@) is None,
        },
{
    s.split(':').nth(1).map(|t| t.to_string())
}

/// A model file's text: trimmed, then without surrounding NUL characters.
pub open spec fn clean(s: Seq<char>) -> Seq<char> {
    strip_char(trimmed(s), '\0')
}

/// A DMI name is used unless empty or the firmware's placeholder.
pub open spec fn dmi_usable(t: Seq<char>) -> bool {
    t.len() > 0 && t != "Default string"@
}

/// The host model: the device-tree model, else the DMI product name, else the DMI
/// board name, else `Unknown`.
pub open spec fn model_of(dt: Option<Seq<char>>, product: Option<Seq<char>>, board: Option<Seq<char>>) -> Seq<char> {
    if dt is Some && clean(dt->0).len() > 0 {
        clean(dt->0)
    } else if product is Some && dmi_usable(clean(product->0)) {
        clean(product->0)
    } else if board is Some && dmi_usable(clean(board->0)) {
        clean(board->0)
    } else {
        "Unknown"@
    }
}

fn clean_text(s: &str) -> (r: String)
    ensures
        r@ == clean(s@),
{
    let t = trim_text(s);
    trim_char(t.as_str(), '\0')
}

fn dmi_name(source: &Option<String>) -> (r: Option<String>)
    ensures
        match r {
            Some(t) => source is Some && dmi_usable(clean(source->0@)) && t@ == clean(source->0@),
            None => !(source is Some && dmi_usable(clean(source->0@))),
        },
{
    match source {
        Some(s) => {
            let t = clean_text(s.as_str());
            let placeholder = String::from_str("Default string");
            let empty = String::new();
            if !(t == empty) && !(t == placeholder) {
                proof {
                    if t@.len() == 0 {
                        assert(t@ =~= empty@);
                    }
                }
                Some(t)
            } else {
                None
            }
        },
        None => None,
    }
}

pub fn choose_model(device_tree: &Option<String>, product: &Option<String>, board: &Option<String>) -> (r: String)
    ensures
        r@ == model_of(opt_text(*device_tree), opt_text(*product), opt_text(*board)),
{
    if let Some(s) = device_tree {
        let t = clean_text(s.as_str());
        proof {
            if t@.len() > 0 {
                assert(t@ != Seq::<char>::empty());
            }
        }
        let empty = String::new();
        if !(t == empty) {
            proof {
                if t@.len() == 0 {
                    assert(t@ =~= empty@);
                }
            }
            return t;
        }
    }
    if let Some(t) = dmi_name(product) {
        return t;
    }
    if let Some(t) = dmi_name(board) {
        return t;
    }
    String::from_str("Unknown")
}

pub open spec fn opt_text(o: Option<String>) -> Option<Seq<char>> {
    match o {
        Some(s) => Some(s@),
        None => None,
    }
}

/// The first line, from position `i` on, that starts with `p`.
pub open spec fn first_with_from(lines: Seq<Seq<char>>, p: Seq<char>, i: int) -> Option<Seq<char>>
    decreases lines.len() - i,
{
    if i < 0 || i >= lines.len() {
        None
    } else if starts_with(lines[i], p) {
        Some(lines[i])
    } else {
        first_with_from(lines, p, i + 1)
    }
}

/// The second `:`-separated piece of the first line, from position `i` on, that starts
/// with `a` or `b` and has one.
pub open spec fn field_from(lines: Seq<Seq<char>>, a: Seq<char>, b: Seq<char>, i: int) -> Option<Seq<char>>
    decreases lines.len() - i,
{
    if i < 0 || i >= lines.len() {
        None
    } else if (starts_with(lines[i], a) || starts_with(lines[i], b)) && colon_field(lines[i]) is Some {
        colon_field(lines[i])
    } else {
        field_from(lines, a, b, i + 1)
    }
}

/// The processor's name: from `lscpu`'s `Model name:` line, else from the first
/// `model name` or `Model` line of cpuinfo, else from its `Hardware` line, else
/// `Unknown`.
pub open spec fn cpu_name_of(lscpu: Option<Seq<char>>, cpuinfo: Option<Seq<char>>) -> Seq<char> {
    let listed = match lscpu {
        Some(out) => match first_with_from(lines_of(out), "Model name:"@, 0) {
            Some(l) => colon_field(l),
            None => None,
        },
        None => None,
    };
    if listed is Some {
        trimmed(listed->0)
    } else {
        match cpuinfo {
            Some(c) => {
                let f = field_from(lines_of(c), "model name"@, "Model"@, 0);
                let g = field_from(lines_of(c), "Hardware"@, "Hardware"@, 0);
                if f is Some {
                    trimmed(f->0)
                } else if g is Some {
                    trimmed(g->0)
                } else {
                    "Unknown"@
                }
            },
            None => "Unknown"@,
        }
    }
}

/// The system's name: the `PRETTY_NAME=` line of os-release without its key and
/// quotes, else `Linux`.
pub open spec fn os_name_of(os_release: Option<Seq<char>>) -> Seq<char> {
    match os_release {
        Some(c) => match first_with_from(lines_of(c), "PRETTY_NAME="@, 0) {
            Some(l) => strip_char(strip_prefix_all(l, "PRETTY_NAME="@), '"'),
            None => "Linux"@,
        },
        None => "Linux"@,
    }
}

/// A command's output, trimmed; `Unknown` when it was not text.
pub open spec fn command_text_of(out: Option<Seq<char>>) -> Seq<char> {
    match out {
        Some(s) => trimmed(s),
        None => trimmed("Unknown"@),
    }
}

fn first_line_with(lines: &Vec<String>, p: &str) -> (r: Option<usize>)
    ensures
        match r {
            Some(i) => i < lines@.len() && first_with_from(line_views(lines@), p@, 0) == Some(lines@[i as int]@),
            None => first_with_from(line_views(lines@), p@, 0) is None,
        },
{
    let ghost v = line_views(lines@);
    let mut i: usize = 0;
    while i < lines.len()
        invariant
            i <= lines@.len(),
            v == line_views(lines@),
            first_with_from(v, p@, 0) == first_with_from(v, p@, i as int),
        decreases lines.len() - i,
    {
        assert(v[i as int] == lines@[i as int]@);
        if has_prefix(lines[i].as_str(), p) {
            return Some(i);
        }
        i = i + 1;
    }
    None
}

fn first_field(lines: &Vec<String>, a: &str, b: &str) -> (r: Option<String>)
    ensures
        opt_text(r) == field_from(line_views(lines@), a@, b@, 0),
{
    let ghost v = line_views(lines@);
    let mut i: usize = 0;
    while i < lines.len()
        invariant
            i <= lines@.len(),
            v == line_views(lines@),
            field_from(v, a@, b@, 0) == field_from(v, a@, b@, i as int),
        decreases lines.len() - i,
    {
        assert(v[i as int] == lines@[i as int]@);
        let line = lines[i].as_str();
        if has_prefix(line, a) || has_prefix(line, b) {
            if let Some(t) = second_colon_piece(line) {
                return Some(t);
            }
        }
        i = i + 1;
    }
    None
}

pub fn cpu_name(lscpu: &Option<String>, cpuinfo: &Option<String>) -> (r: String)
    ensures
        r@ == cpu_name_of(opt_text(*lscpu), opt_text(*cpuinfo)),
{
    if let Some(out) = lscpu {
        let lines = text_lines(out.as_str());
        if let Some(i) = first_line_with(&lines, "Model name:") {
            if let Some(name) = second_colon_piece(lines[i].as_str()) {
                return trim_text(name.as_str());
            }
        }
    }
    if let Some(info) = cpuinfo {
        let lines = text_lines(info.as_str());
        if let Some(name) = first_field(&lines, "model name", "Model") {
            return trim_text(name.as_str());
        }
        if let Some(name) = first_field(&lines, "Hardware", "Hardware") {
            return trim_text(name.as_str());
        }
    }
    String::from_str("Unknown")
}

pub fn os_name(os_release: &Option<String>) -> (r: String)
    ensures
        r@ == os_name_of(opt_text(*os_release)),
{
    if let Some(content) = os_release {
        let lines = text_lines(content.as_str());
        if let Some(i) = first_line_with(&lines, "PRETTY_NAME=") {
            let rest = trim_prefix(lines[i].as_str(), "PRETTY_NAME=");
            return trim_char(rest.as_str(), '"');
        }
    }
    String::from_str("Linux")
}

pub fn command_text(out: &Option<String>) -> (r: String)
    ensures
        r@ == command_text_of(opt_text(*out)),
{
    match out {
        Some(s) => trim_text(s.as_str()),
        None => trim_text("Unknown"),
    }
}

impl GenericPlatform {
    /// The host's facts, worked out from what was read.
    pub fn new(sources: &PlatformSources) -> (r: GenericPlatform)
        ensures
            r.model@ == model_of(
                opt_text(sources.device_tree_model),
                opt_text(sources.product_name),
                opt_text(sources.board_name),
            ),
            r.arch@ == command_text_of(opt_text(sources.machine)),
            r.cpu_name@ == cpu_name_of(opt_text(sources.lscpu), opt_text(sources.cpuinfo)),
            r.kernel@ == command_text_of(opt_text(sources.release)),
            r.os_name@ == os_name_of(opt_text(sources.os_release)),
    {
        GenericPlatform {
            model: choose_model(&sources.device_tree_model, &sources.product_name, &sources.board_name),
            arch: command_text(&sources.machine),
            cpu_name: cpu_name(&sources.lscpu, &sources.cpuinfo),
            kernel: command_text(&sources.release),
            os_name: os_name(&sources.os_release),
        }
    }
}

} // verus!
