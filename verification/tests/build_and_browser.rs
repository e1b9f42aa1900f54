use bevy_map::asset_browser::{
    format_size, parse_custom_extensions, AssetBrowserState, FileEntry, SortOrder,
};
use bevy_map::build_output::{
    line_messages, parse_compiling_crate, parse_progress, strip_ansi_codes, BuildLogReader,
    BuildOutput, LaunchError,
};
use bevy_map::cli::BevyCliError;

fn file(name: &str, size: u64) -> FileEntry {
    let lower = name.to_lowercase();
    let extension = lower.rsplit_once('.').map(|(_, e)| e.to_string());
    FileEntry {
        path: format!("/assets/{}", name),
        name: name.to_string(),
        name_lower: lower,
        is_dir: false,
        extension,
        size,
    }
}

fn dir(name: &str) -> FileEntry {
    FileEntry {
        path: format!("/assets/{}", name),
        name: name.to_string(),
        name_lower: name.to_lowercase(),
        is_dir: true,
        extension: None,
        size: 0,
    }
}

fn names(entries: &[FileEntry]) -> Vec<String> {
    entries.iter().map(|e| e.name.clone()).collect()
}

fn feed(reader: &mut BuildLogReader, text: &str) -> Vec<BuildOutput> {
    let mut out = Vec::new();
    for b in text.bytes() {
        out.extend(reader.feed_byte(b));
    }
    out
}

#[test]
fn ansi_codes_are_removed() {
    assert_eq!(strip_ansi_codes("\u{1b}[1m\u{1b}[32mCompiling\u{1b}[0m foo"), "Compiling foo");
    assert_eq!(strip_ansi_codes("plain"), "plain");
    assert_eq!(strip_ansi_codes("a\u{1b}b"), "ab");
    assert_eq!(strip_ansi_codes("x\u{1b}[12"), "x");
}

#[test]
fn progress_lines() {
    assert_eq!(parse_progress("    Building [=====>    ] 113/413: bevy_ecs"), Some((113, 413)));
    assert_eq!(parse_progress("\u{1b}[1mBuilding\u{1b}[0m [==>  ] 7/9: x"), Some((7, 9)));
    assert_eq!(parse_progress("Building [=>] 1/2"), None);
    assert_eq!(parse_progress("Building [=>] a/2: x"), None);
    assert_eq!(parse_progress("Compiling foo v1.0"), None);
}

#[test]
fn compiling_lines() {
    assert_eq!(parse_compiling_crate("   Compiling serde v1.0.200"), Some("serde".to_string()));
    assert_eq!(
        parse_compiling_crate("\u{1b}[32mCompiling\u{1b}[0m my_game v0.1.0 (/tmp/g)"),
        Some("my_game".to_string())
    );
    assert_eq!(parse_compiling_crate("Compiling serde"), None);
    assert_eq!(parse_compiling_crate("Finished dev"), None);
}

#[test]
fn line_messages_in_order() {
    let line: Vec<char> = "    Finished `dev` profile".chars().collect();
    let (msgs, sent) = line_messages(&line, false);
    assert!(sent);
    assert_eq!(
        msgs,
        vec![BuildOutput::BuildComplete, BuildOutput::Line("    Finished `dev` profile".to_string())]
    );
    let (msgs, sent) = line_messages(&line, true);
    assert!(sent);
    assert_eq!(msgs, vec![BuildOutput::Line("    Finished `dev` profile".to_string())]);
    let bar: Vec<char> = "Building [=> ] 3/4: x".chars().collect();
    let (msgs, sent) = line_messages(&bar, false);
    assert!(!sent);
    assert_eq!(msgs, vec![BuildOutput::Progress(3, 4)]);
}

#[test]
fn log_reader_splits_lines_on_cr_and_lf() {
    let mut reader = BuildLogReader::new();
    let out = feed(
        &mut reader,
        "   Compiling foo v0.1.0\r\n    Finished `dev`\n     Running `target/debug/game`\nhello",
    );
    assert_eq!(
        out,
        vec![
            BuildOutput::CurrentCrate("foo".to_string()),
            BuildOutput::Line("   Compiling foo v0.1.0".to_string()),
            BuildOutput::BuildComplete,
            BuildOutput::Line("    Finished `dev`".to_string()),
            BuildOutput::GameStarted,
            BuildOutput::Line("     Running `target/debug/game`".to_string()),
        ]
    );
    assert_eq!(feed(&mut reader, "\n"), vec![BuildOutput::Line("hello".to_string())]);
    assert_eq!(feed(&mut reader, "   Finished again\n"), vec![BuildOutput::Line("   Finished again".to_string())]);
}

#[test]
fn launch_and_cli_error_messages() {
    assert_eq!(LaunchError::MapNotSaved.message(), "Save the map project before running the game.");
    assert_eq!(LaunchError::CargoNotFound.message(), "Cargo not found. Please install Rust toolchain.");
    assert_eq!(
        LaunchError::ProjectNotConfigured.message(),
        "Game project not configured. Go to Project > Game Settings."
    );
    assert_eq!(LaunchError::IoError("e".to_string()).message(), "IO error: e");
    assert_eq!(LaunchError::LaunchFailed("x".to_string()).message(), "Failed to launch game: x");
    assert_eq!(LaunchError::ProjectNotFound("/p".to_string()).message(), "Game project not found at: /p");
    assert_eq!(BevyCliError::CargoNotFound.message(), "Cargo not found. Please install Rust toolchain.");
    assert_eq!(
        BevyCliError::InvalidProjectName("My Game".to_string()).message(),
        "Invalid project name: 'My Game'. Use lowercase letters, numbers, underscores, or hyphens."
    );
    assert_eq!(BevyCliError::CreateFailed("no".to_string()).message(), "Project creation failed: no");
}

#[test]
fn sizes_read_like_formatted_floats() {
    assert_eq!(format_size(0), "0 B");
    assert_eq!(format_size(1023), "1023 B");
    assert_eq!(format_size(1024), "1.0 KB");
    assert_eq!(format_size(1536), "1.5 KB");
    assert_eq!(format_size(1024 * 1024), "1.0 MB");
    assert_eq!(format_size(5 * 1024 * 1024 * 1024), "5.0 GB");
    let samples: [u64; 12] = [
        1100,
        2047,
        10_239,
        1_048_575,
        1_100_000,
        52_428_799,
        1_073_741_823,
        1_073_741_824,
        1_181_116_006,
        u64::MAX / 3,
        u64::MAX,
        9_999_999_999_999,
    ];
    for s in samples {
        let expected = if s < 1024 {
            format!("{} B", s)
        } else if s < 1024 * 1024 {
            format!("{:.1} KB", s as f64 / 1024.0)
        } else if s < 1024 * 1024 * 1024 {
            format!("{:.1} MB", s as f64 / (1024.0 * 1024.0))
        } else {
            format!("{:.1} GB", s as f64 / (1024.0 * 1024.0 * 1024.0))
        };
        assert_eq!(format_size(s), expected, "size {}", s);
    }
}

#[test]
fn custom_extension_lists() {
    assert_eq!(parse_custom_extensions(".tmx, json ,,  .ldtk"), vec!["tmx", "json", "ldtk"]);
    assert!(parse_custom_extensions("").is_empty());
    assert!(parse_custom_extensions(" , . ,").is_empty());
}

#[test]
fn file_kinds() {
    assert!(file("a.PNG", 1).is_image());
    assert!(file("a.ogg", 1).is_audio());
    assert!(file("a.json", 1).is_json());
    assert!(!file("a.txt", 1).is_image());
    assert_eq!(dir("x").file_type_icon(), "\u{1F4C1}");
    assert_eq!(file("a.png", 1).file_type_icon(), "\u{1F5BC}");
    assert_eq!(file("a.txt", 1).file_type_icon(), "\u{1F4C3}");
}

#[test]
fn listing_filters_and_sorts() {
    let mut state = AssetBrowserState::new("/assets".to_string());
    let entries = vec![
        file("zeta.png", 30),
        dir("sprites"),
        file("Alpha.json", 10),
        file("song.ogg", 20),
        file("notes.txt", 5),
        dir("audio"),
    ];
    let shown = state.filter_and_sort(entries.clone());
    assert_eq!(names(&shown), vec!["audio", "sprites", "Alpha.json", "zeta.png"]);

    state.sort_order = SortOrder::Size;
    let shown = state.filter_and_sort(entries.clone());
    assert_eq!(names(&shown), vec!["sprites", "audio", "Alpha.json", "zeta.png"]);

    state.filter.show_audio = true;
    state.sort_order = SortOrder::Type;
    let shown = state.filter_and_sort(entries.clone());
    assert_eq!(names(&shown), vec!["audio", "sprites", "Alpha.json", "song.ogg", "zeta.png"]);

    state.filter.search_text = "A".to_string();
    state.sort_order = SortOrder::Name;
    let shown = state.filter_and_sort(entries.clone());
    assert_eq!(names(&shown), vec!["audio", "sprites", "Alpha.json", "zeta.png"]);

    state.filter.search_text = String::new();
    state.filter.show_images = false;
    state.filter.show_audio = false;
    state.filter.show_json = false;
    state.filter.show_folders = false;
    let shown = state.filter_and_sort(entries.clone());
    assert_eq!(names(&shown), vec!["Alpha.json", "notes.txt", "song.ogg", "zeta.png"]);

    state.filter.custom_extensions = "TXT".to_string();
    let shown = state.filter_and_sort(entries);
    assert_eq!(names(&shown), vec!["notes.txt"]);
}

#[test]
fn browser_history_navigation() {
    let mut state = AssetBrowserState::new("/a".to_string());
    state.navigate_to("/a/b".to_string(), true);
    state.navigate_to("/a/b/c".to_string(), true);
    assert_eq!(state.current_path, "/a/b/c");
    state.navigate_to("/a/b/c".to_string(), true);
    assert_eq!(state.history.len(), 3);
    state.navigate_to("/a/file.png".to_string(), false);
    assert_eq!(state.current_path, "/a/b/c");
    state.go_back();
    assert_eq!(state.current_path, "/a/b");
    state.go_back();
    state.go_back();
    assert_eq!(state.current_path, "/a");
    state.go_forward();
    assert_eq!(state.current_path, "/a/b");
    state.navigate_to("/x".to_string(), true);
    assert_eq!(state.history, vec!["/a".to_string(), "/a/b".to_string(), "/x".to_string()]);
    state.go_forward();
    assert_eq!(state.current_path, "/x");
    state.go_up(Some("/".to_string()), true);
    assert_eq!(state.current_path, "/");
    state.go_up(None, false);
    assert_eq!(state.current_path, "/");
}
