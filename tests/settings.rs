use sharp_frame_extractor::settings::{
    first_complete_install, get_install_instructions, known_install_locations, resolve_binary,
    system_command, AppSettings, Platform, Tool, ToolError, ToolPaths,
};
use sharp_frame_extractor::preview::{preview_data_url, preview_size};

#[test]
fn default_settings_are_a_first_run() {
    let settings = AppSettings::default();
    assert!(settings.first_run);
    assert!(settings.ffmpeg_path.is_none());
    assert!(settings.ffprobe_path.is_none());
}

#[test]
fn completing_first_run_keeps_paths() {
    let mut settings = AppSettings {
        ffmpeg_path: Some("/opt/ff/ffmpeg".to_string()),
        ffprobe_path: None,
        first_run: true,
    };
    settings.complete_first_run();
    assert!(!settings.first_run);
    assert_eq!(settings.ffmpeg_path.as_deref(), Some("/opt/ff/ffmpeg"));
}

#[test]
fn install_instructions_per_platform() {
    let linux = get_install_instructions(Platform::Linux);
    assert_eq!(linux.len(), 12);
    assert_eq!(linux[0], "Ubuntu/Debian:");
    assert_eq!(linux[11], "  /usr/local/bin/ffmpeg");
    let mac = get_install_instructions(Platform::MacOs);
    assert_eq!(mac[1], "  brew install ffmpeg");
    let windows = get_install_instructions(Platform::Windows);
    assert_eq!(windows[8], "  Extract to C:\\ffmpeg");
    assert!(get_install_instructions(Platform::Other).is_empty());
}

#[test]
fn install_locations_and_detection() {
    let linux = known_install_locations(Platform::Linux);
    assert_eq!(linux[0], ("/usr/bin/ffmpeg".to_string(), "/usr/bin/ffprobe".to_string()));
    assert_eq!(first_complete_install(&linux, &vec![false, true, true]), Some(linux[1].clone()));
    assert_eq!(first_complete_install(&linux, &vec![false, false, false]), None);
}

#[test]
fn binary_resolution_order() {
    let configured = Some("/custom/ffmpeg".to_string());
    let detected = Some("/usr/bin/ffmpeg".to_string());
    assert_eq!(
        resolve_binary(Tool::Ffmpeg, Platform::Linux, configured.clone(), true, detected.clone(), true),
        Ok("/custom/ffmpeg".to_string())
    );
    assert_eq!(
        resolve_binary(Tool::Ffmpeg, Platform::Linux, configured.clone(), false, detected, true),
        Ok("/usr/bin/ffmpeg".to_string())
    );
    assert_eq!(
        resolve_binary(Tool::Ffprobe, Platform::Windows, configured, false, None, true),
        Ok("ffprobe.exe".to_string())
    );
    assert_eq!(
        resolve_binary(Tool::Ffprobe, Platform::Linux, None, true, None, false),
        Err(ToolError::NotFound(Tool::Ffprobe))
    );
    assert_eq!(system_command(Tool::Ffmpeg, Platform::MacOs), "ffmpeg");
}

#[test]
fn tool_error_message() {
    assert_eq!(
        ToolError::NotFound(Tool::Ffmpeg).message(),
        "FFmpeg not found. Please install FFmpeg or configure the path in Settings."
    );
}

#[test]
fn tool_paths_are_cached_once_found() {
    let mut paths = ToolPaths::new();
    assert_eq!(paths.get_ffmpeg_path(Err(ToolError::NotFound(Tool::Ffmpeg))), Err(ToolError::NotFound(Tool::Ffmpeg)));
    assert!(paths.ffmpeg.is_none());
    assert_eq!(paths.get_ffmpeg_path(Ok("/a/ffmpeg".to_string())), Ok("/a/ffmpeg".to_string()));
    assert_eq!(paths.get_ffmpeg_path(Ok("/b/ffmpeg".to_string())), Ok("/a/ffmpeg".to_string()));
    assert_eq!(paths.get_ffprobe_path(Ok("/b/ffprobe".to_string())), Ok("/b/ffprobe".to_string()));
    assert_eq!(paths.ffprobe.as_deref(), Some("/b/ffprobe"));
}

#[test]
fn preview_scaling() {
    assert_eq!(preview_size(640, 480), (640, 480));
    assert_eq!(preview_size(800, 600), (800, 600));
    assert_eq!(preview_size(1920, 1080), (800, 450));
    assert_eq!(preview_size(1000, 333), (800, 266));
}

#[test]
fn preview_data_url_encodes_base64() {
    assert_eq!(preview_data_url(&vec![0xff, 0xd8, 0xff]), "data:image/jpeg;base64,/9j/");
    assert_eq!(preview_data_url(&b"hi".to_vec()), "data:image/jpeg;base64,aGk=");
    assert_eq!(preview_data_url(&Vec::new()), "data:image/jpeg;base64,");
}
