//! Application settings, decode-tool lookup decisions and install help.
use vstd::prelude::*;

verus! {

/// User settings: optional paths to the decode tools, and whether the
/// application has yet to finish its first run.
pub struct AppSettings {
    pub ffmpeg_path: Option<String>,
    pub ffprobe_path: Option<String>,
    pub first_run: bool,
}

impl Default for AppSettings {
    fn default() -> (r: AppSettings)
        ensures
            r.ffmpeg_path is None,
            r.ffprobe_path is None,
            r.first_run,
    {
        AppSettings { ffmpeg_path: None, ffprobe_path: None, first_run: true }
    }
}

impl AppSettings {
    /// Marks the first run as done; the tool paths stay as they were.
    pub fn complete_first_run(&mut self)
        ensures
            !final(self).first_run,
            final(self).ffmpeg_path == old(self).ffmpeg_path,
            final(self).ffprobe_path == old(self).ffprobe_path,
    {
        self.first_run = false;
    }
}

/// Operating systems with install help and known install locations.
#[derive(Clone, Copy, Debug, PartialEq, Eq, Structural)]
pub enum Platform {
    MacOs,
    Linux,
    Windows,
    Other,
}

/// The two decode tools.
#[derive(Clone, Copy, Debug, PartialEq, Eq, Structural)]
pub enum Tool {
    Ffmpeg,
    Ffprobe,
}

/// A decode tool that could not be found.
#[derive(Clone, Copy, Debug, PartialEq, Eq, Structural)]
pub enum ToolError {
    NotFound(Tool),
}

impl ToolError {
    /// What to tell the user.
    pub fn message(&self) -> (r: String)
        ensures
            r@ == match self {
                ToolError::NotFound(Tool::Ffmpeg) =>
                    "FFmpeg not found. Please install FFmpeg or configure the path in Settings."@,
                ToolError::NotFound(Tool::Ffprobe) =>
                    "FFprobe not found. Please install FFmpeg or configure the path in Settings."@,
            },
    {
        match self {
            ToolError::NotFound(Tool::Ffmpeg) =>
                "FFmpeg not found. Please install FFmpeg or configure the path in Settings.".to_owned(),
            ToolError::NotFound(Tool::Ffprobe) =>
                "FFprobe not found. Please install FFmpeg or configure the path in Settings.".to_owned(),
        }
    }
}

/// Name under which the tool is looked up on the system search path.
pub open spec fn command_name(tool: Tool, platform: Platform) -> Seq<char> {
    match (tool, platform) {
        (Tool::Ffmpeg, Platform::Windows) => "ffmpeg.exe"@,
        (Tool::Ffprobe, Platform::Windows) => "ffprobe.exe"@,
        (Tool::Ffmpeg, _) => "ffmpeg"@,
        (Tool::Ffprobe, _) => "ffprobe"@,
    }
}

/// Name under which the tool is looked up on the system search path.
pub fn system_command(tool: Tool, platform: Platform) -> (r: String)
    ensures
        r@ == command_name(tool, platform),
{
    match (tool, platform) {
        (Tool::Ffmpeg, Platform::Windows) => "ffmpeg.exe".to_owned(),
        (Tool::Ffprobe, Platform::Windows) => "ffprobe.exe".to_owned(),
        (Tool::Ffmpeg, _) => "ffmpeg".to_owned(),
        (Tool::Ffprobe, _) => "ffprobe".to_owned(),
    }
}

/// Where a tool is taken from, in order of preference: the path configured in
/// the settings when it runs, else the path found by install detection, else
/// the command on the system search path when it runs.
pub fn resolve_binary(
    tool: Tool,
    platform: Platform,
    configured: Option<String>,
    configured_runs: bool,
    detected: Option<String>,
    system_runs: bool,
) -> (r: Result<String, ToolError>)
    ensures
        configured is Some && configured_runs ==> r == Ok::<String, ToolError>(configured->0),
        !(configured is Some && configured_runs) && detected is Some ==> r == Ok::<
            String,
            ToolError,
        >(detected->0),
        !(configured is Some && configured_runs) && detected is None && system_runs ==> (r matches Ok(
            p,
        ) && p@ == command_name(tool, platform)),
        !(configured is Some && configured_runs) && detected is None && !system_runs ==> r
            == Err::<String, ToolError>(ToolError::NotFound(tool)),
{
    if configured_runs {
        if let Some(path) = configured {
            return Ok(path);
        }
    }
    match detected {
        Some(path) => Ok(path),
        None => if system_runs {
            Ok(system_command(tool, platform))
        } else {
            Err(ToolError::NotFound(tool))
        },
    }
}

/// Tool paths resolved once per session and reused after that.
pub struct ToolPaths {
    pub ffmpeg: Option<String>,
    pub ffprobe: Option<String>,
}

impl ToolPaths {
    /// No path resolved yet.
    pub fn new() -> (r: ToolPaths)
        ensures
            r.ffmpeg is None,
            r.ffprobe is None,
    {
        ToolPaths { ffmpeg: None, ffprobe: None }
    }

    /// The FFmpeg path: the cached one if there is one (`located` is then not
    /// used), else `located`, which is cached when it is a path.
    pub fn get_ffmpeg_path(&mut self, located: Result<String, ToolError>) -> (r: Result<
        String,
        ToolError,
    >)
        ensures
            old(self).ffmpeg is Some ==> r == Ok::<String, ToolError>(old(self).ffmpeg->0)
                && final(self).ffmpeg == old(self).ffmpeg,
            old(self).ffmpeg is None ==> r == located && final(self).ffmpeg == match located {
                Ok(p) => Some(p),
                Err(_) => None::<String>,
            },
            final(self).ffprobe == old(self).ffprobe,
    {
        match &self.ffmpeg {
            Some(path) => Ok(path.clone()),
            None => {
                if let Ok(path) = &located {
                    self.ffmpeg = Some(path.clone());
                }
                located
            },
        }
    }

    /// The FFprobe path: the cached one if there is one (`located` is then not
    /// used), else `located`, which is cached when it is a path.
    pub fn get_ffprobe_path(&mut self, located: Result<String, ToolError>) -> (r: Result<
        String,
        ToolError,
    >)
        ensures
            old(self).ffprobe is Some ==> r == Ok::<String, ToolError>(old(self).ffprobe->0)
                && final(self).ffprobe == old(self).ffprobe,
            old(self).ffprobe is None ==> r == located && final(self).ffprobe == match located {
                Ok(p) => Some(p),
                Err(_) => None::<String>,
            },
            final(self).ffmpeg == old(self).ffmpeg,
    {
        match &self.ffprobe {
            Some(path) => Ok(path.clone()),
            None => {
                if let Ok(path) = &located {
                    self.ffprobe = Some(path.clone());
                }
                located
            },
        }
    }
}

/// Install help for a platform, one line per entry (none for other systems).
pub open spec fn install_instructions(platform: Platform) -> Seq<Seq<char>> {
    match platform {
        Platform::MacOs => seq![
            "Using Homebrew (recommended):"@,
            "  brew install ffmpeg"@,
            ""@,
            "Using MacPorts:"@,
            "  sudo port install ffmpeg"@,
            ""@,
            "Common install locations:"@,
            "  /opt/homebrew/bin/ffmpeg (Apple Silicon)"@,
            "  /usr/local/bin/ffmpeg (Intel Mac)"@,
        ],
        Platform::Linux => seq![
            "Ubuntu/Debian:"@,
            "  sudo apt update && sudo apt install ffmpeg"@,
            ""@,
            "Fedora:"@,
            "  sudo dnf install ffmpeg"@,
            ""@,
            "Arch Linux:"@,
            "  sudo pacman -S ffmpeg"@,
            ""@,
            "Common install locations:"@,
            "  /usr/bin/ffmpeg"@,
            "  /usr/local/bin/ffmpeg"@,
        ],
        Platform::Windows => seq![
            "Using Chocolatey:"@,
            "  choco install ffmpeg"@,
            ""@,
            "Using Scoop:"@,
            "  scoop install ffmpeg"@,
            ""@,
            "Manual download:"@,
            "  Download from https://ffmpeg.org/download.html"@,
            "  Extract to C:\\ffmpeg"@,
            "  Add C:\\ffmpeg\\bin to system PATH"@,
            ""@,
            "Common install locations:"@,
            "  C:\\Program Files\\ffmpeg\\bin\\ffmpeg.exe"@,
            "  C:\\ffmpeg\\bin\\ffmpeg.exe"@,
        ],
        Platform::Other => Seq::empty(),
    }
}

/// Install help for a platform, one line per entry (none for other systems).
pub fn get_install_instructions(platform: Platform) -> (r: Vec<String>)
    ensures
        r@.map_values(|s: String| s@) == install_instructions(platform),
{
    let mut out: Vec<String> = Vec::new();
    match platform {
        Platform::MacOs => {
            out.push("Using Homebrew (recommended):".to_owned());
            out.push("  brew install ffmpeg".to_owned());
            out.push("".to_owned());
            out.push("Using MacPorts:".to_owned());
            out.push("  sudo port install ffmpeg".to_owned());
            out.push("".to_owned());
            out.push("Common install locations:".to_owned());
            out.push("  /opt/homebrew/bin/ffmpeg (Apple Silicon)".to_owned());
            out.push("  /usr/local/bin/ffmpeg (Intel Mac)".to_owned());
        },
        Platform::Linux => {
            out.push("Ubuntu/Debian:".to_owned());
            out.push("  sudo apt update && sudo apt install ffmpeg".to_owned());
            out.push("".to_owned());
            out.push("Fedora:".to_owned());
            out.push("  sudo dnf install ffmpeg".to_owned());
            out.push("".to_owned());
            out.push("Arch Linux:".to_owned());
            out.push("  sudo pacman -S ffmpeg".to_owned());
            out.push("".to_owned());
            out.push("Common install locations:".to_owned());
            out.push("  /usr/bin/ffmpeg".to_owned());
            out.push("  /usr/local/bin/ffmpeg".to_owned());
        },
        Platform::Windows => {
            out.push("Using Chocolatey:".to_owned());
            out.push("  choco install ffmpeg".to_owned());
            out.push("".to_owned());
            out.push("Using Scoop:".to_owned());
            out.push("  scoop install ffmpeg".to_owned());
            out.push("".to_owned());
            out.push("Manual download:".to_owned());
            out.push("  Download from https://ffmpeg.org/download.html".to_owned());
            out.push("  Extract to C:\\ffmpeg".to_owned());
            out.push("  Add C:\\ffmpeg\\bin to system PATH".to_owned());
            out.push("".to_owned());
            out.push("Common install locations:".to_owned());
            out.push("  C:\\Program Files\\ffmpeg\\bin\\ffmpeg.exe".to_owned());
            out.push("  C:\\ffmpeg\\bin\\ffmpeg.exe".to_owned());
        },
        Platform::Other => {},
    }
    proof {
        assert(out@.map_values(|s: String| s@) =~= install_instructions(platform));
    }
    out
}

/// Known install locations of the two tools, as (FFmpeg, FFprobe) pairs in
/// order of preference. Locations under the user's home are not listed.
pub open spec fn install_candidates(platform: Platform) -> Seq<(Seq<char>, Seq<char>)> {
    match platform {
        Platform::MacOs => seq![
            ("/opt/homebrew/bin/ffmpeg"@, "/opt/homebrew/bin/ffprobe"@),
            ("/usr/local/bin/ffmpeg"@, "/usr/local/bin/ffprobe"@),
            ("/opt/local/bin/ffmpeg"@, "/opt/local/bin/ffprobe"@),
        ],
        Platform::Linux => seq![
            ("/usr/bin/ffmpeg"@, "/usr/bin/ffprobe"@),
            ("/usr/local/bin/ffmpeg"@, "/usr/local/bin/ffprobe"@),
            ("/snap/bin/ffmpeg"@, "/snap/bin/ffprobe"@),
        ],
        Platform::Windows => seq![
            ("C:\\Program Files\\ffmpeg\\bin\\ffmpeg.exe"@, "C:\\Program Files\\ffmpeg\\bin\\ffprobe.exe"@),
            ("C:\\ffmpeg\\bin\\ffmpeg.exe"@, "C:\\ffmpeg\\bin\\ffprobe.exe"@),
        ],
        Platform::Other => Seq::empty(),
    }
}

/// Known install locations of the two tools, as (FFmpeg, FFprobe) pairs in
/// order of preference. Locations under the user's home are not listed.
pub fn known_install_locations(platform: Platform) -> (r: Vec<(String, String)>)
    ensures
        r@.map_values(|p: (String, String)| (p.0@, p.1@)) == install_candidates(platform),
{
    let mut out: Vec<(String, String)> = Vec::new();
    match platform {
        Platform::MacOs => {
            out.push(("/opt/homebrew/bin/ffmpeg".to_owned(), "/opt/homebrew/bin/ffprobe".to_owned()));
            out.push(("/usr/local/bin/ffmpeg".to_owned(), "/usr/local/bin/ffprobe".to_owned()));
            out.push(("/opt/local/bin/ffmpeg".to_owned(), "/opt/local/bin/ffprobe".to_owned()));
        },
        Platform::Linux => {
            out.push(("/usr/bin/ffmpeg".to_owned(), "/usr/bin/ffprobe".to_owned()));
            out.push(("/usr/local/bin/ffmpeg".to_owned(), "/usr/local/bin/ffprobe".to_owned()));
            out.push(("/snap/bin/ffmpeg".to_owned(), "/snap/bin/ffprobe".to_owned()));
        },
        Platform::Windows => {
            out.push(("C:\\Program Files\\ffmpeg\\bin\\ffmpeg.exe".to_owned(), "C:\\Program Files\\ffmpeg\\bin\\ffprobe.exe".to_owned()));
            out.push(("C:\\ffmpeg\\bin\\ffmpeg.exe".to_owned(), "C:\\ffmpeg\\bin\\ffprobe.exe".to_owned()));
        },
        Platform::Other => {},
    }
    proof {
        assert(out@.map_values(|p: (String, String)| (p.0@, p.1@)) =~= install_candidates(platform));
    }
    out
}

/// The first install location where both tools are present: `present[i]`
/// tells whether both files of `locations[i]` exist.
pub fn first_complete_install(locations: &Vec<(String, String)>, present: &Vec<bool>) -> (r: Option<(String, String)>)
    requires
        locations@.len() == present@.len(),
    ensures
        r is None <==> forall|i: int| 0 <= i < present@.len() ==> !#[trigger] present@[i],
        r is Some ==> exists|i: int|
            0 <= i < present@.len() && present@[i] && r == Some(locations@[i]) && forall|j: int|
                0 <= j < i ==> !#[trigger] present@[j],
{
    let mut i: usize = 0;
    while i < present.len()
        invariant
            locations@.len() == present@.len(),
            0 <= i <= present@.len(),
            forall|j: int| 0 <= j < i ==> !#[trigger] present@[j],
        decreases present@.len() - i,
    {
        if present[i] {
            let pair = (locations[i].0.clone(), locations[i].1.clone());
            assert(pair == locations@[i as int]);
            return Some(pair);
        }
        i = i + 1;
    }
    None
}

} // verus!
