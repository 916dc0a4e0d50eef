use disk_dashboard::classify::{
    categorize_file, is_protected_full_path, is_protected_path, should_block_folder_entry,
    FileCategory,
};
use disk_dashboard::icon::get_file_icon;

// ==================== Empty Folder Navigation Tests ====================

#[test]
fn test_empty_folder_blocks_navigation() {
    assert!(should_block_folder_entry(Some(0)));
}

#[test]
fn test_non_empty_folder_allows_navigation() {
    assert!(!should_block_folder_entry(Some(1)));
    assert!(!should_block_folder_entry(Some(10)));
    assert!(!should_block_folder_entry(Some(100)));
}

#[test]
fn test_unknown_folder_count_allows_navigation() {
    assert!(!should_block_folder_entry(None));
}

// ==================== Protected Path Tests (Name Only) ====================

#[test]
fn test_recycle_bin_is_protected() {
    assert!(is_protected_path("$RECYCLE.BIN"));
    assert!(is_protected_path("$Recycle.Bin"));
    assert!(is_protected_path("$recycle.bin"));
}

#[test]
fn test_system_volume_info_is_protected() {
    assert!(is_protected_path("System Volume Information"));
    assert!(is_protected_path("system volume information"));
}

#[test]
fn test_system_files_are_protected() {
    assert!(is_protected_path("pagefile.sys"));
    assert!(is_protected_path("hiberfil.sys"));
    assert!(is_protected_path("bootmgr"));
    assert!(is_protected_path("Recovery"));
    assert!(is_protected_path("boot"));
}

#[test]
fn test_dollar_prefix_is_protected() {
    assert!(is_protected_path("$WinREAgent"));
    assert!(is_protected_path("$SysReset"));
    assert!(is_protected_path("$Windows.~BT"));
}

#[test]
fn test_normal_folders_not_protected_by_name() {
    assert!(!is_protected_path("Documents"));
    assert!(!is_protected_path("Users"));
    assert!(!is_protected_path("my_project"));
}

// ==================== Protected Full Path Tests ====================

#[test]
fn test_windows_folder_is_protected() {
    assert!(is_protected_full_path("C:\\Windows"));
    assert!(is_protected_full_path("C:\\WINDOWS"));
    assert!(is_protected_full_path("c:\\windows"));
}

#[test]
fn test_windows_subfolder_is_protected() {
    assert!(is_protected_full_path("C:\\Windows\\System32"));
    assert!(is_protected_full_path("C:\\Windows\\Panther"));
    assert!(is_protected_full_path("C:\\Windows\\Fonts"));
    assert!(is_protected_full_path("C:\\Windows\\SysWOW64\\file.dll"));
}

#[test]
fn test_program_files_is_protected() {
    assert!(is_protected_full_path("C:\\Program Files\\App"));
    assert!(is_protected_full_path("C:\\Program Files (x86)\\App"));
    assert!(is_protected_full_path("D:\\Program Files\\Something"));
}

#[test]
fn test_user_folders_not_protected() {
    assert!(!is_protected_full_path("C:\\Users\\John\\Documents"));
    assert!(!is_protected_full_path("D:\\Projects\\myapp"));
    assert!(!is_protected_full_path("C:\\Data\\file.txt"));
}

// ==================== File Categorization Tests ====================

#[test]
fn test_categorize_system_files_mustkeep() {
    let (cat, score) =
        categorize_file("C:\\Windows\\System32\\kernel32.dll", "kernel32.dll", false, 1000);
    assert!(matches!(cat, FileCategory::MustKeep));
    assert_eq!(score, 100);

    let (cat, _) = categorize_file("C:\\pagefile.sys", "pagefile.sys", false, 1000);
    assert!(matches!(cat, FileCategory::MustKeep));
}

#[test]
fn test_categorize_recycle_bin_mustkeep() {
    let (cat, score) = categorize_file("C:\\$RECYCLE.BIN", "$RECYCLE.BIN", true, 0);
    assert!(matches!(cat, FileCategory::MustKeep));
    assert_eq!(score, 100);
}

#[test]
fn test_categorize_temp_files_useless() {
    let (cat, score) = categorize_file("C:\\temp\\file.tmp", "file.tmp", false, 100);
    assert!(matches!(cat, FileCategory::Useless));
    assert_eq!(score, 5);

    let (cat, _) = categorize_file("C:\\Users\\cache\\data", "cache", true, 0);
    assert!(matches!(cat, FileCategory::Useless));

    let (cat, _) = categorize_file("C:\\app.log", "app.log", false, 1000);
    assert!(matches!(cat, FileCategory::Useless));
}

#[test]
fn test_categorize_system_dll_files() {
    let (cat, score) = categorize_file("C:\\app\\lib.dll", "lib.dll", false, 1000);
    assert!(matches!(cat, FileCategory::System));
    assert_eq!(score, 85);
}

#[test]
fn test_categorize_photos_high_usefulness() {
    let (cat, score) = categorize_file("C:\\Photos\\vacation.jpg", "vacation.jpg", false, 5000000);
    assert!(matches!(cat, FileCategory::Regular));
    assert_eq!(score, 95);

    let (cat, score) = categorize_file("C:\\Photos\\image.png", "image.png", false, 1000);
    assert!(matches!(cat, FileCategory::Regular));
    assert_eq!(score, 95);
}

#[test]
fn test_categorize_documents_high_usefulness() {
    let (cat, score) = categorize_file("C:\\Docs\\report.pdf", "report.pdf", false, 1000);
    assert!(matches!(cat, FileCategory::Regular));
    assert_eq!(score, 90);

    let (cat, score) = categorize_file("C:\\Docs\\letter.docx", "letter.docx", false, 1000);
    assert!(matches!(cat, FileCategory::Regular));
    assert_eq!(score, 90);
}

#[test]
fn test_categorize_videos_size_dependent() {
    // Small video - high usefulness
    let (cat, score) = categorize_file("C:\\Videos\\clip.mp4", "clip.mp4", false, 100_000_000);
    assert!(matches!(cat, FileCategory::Regular));
    assert_eq!(score, 85);

    // Large video - lower usefulness
    let (cat, score) = categorize_file("C:\\Videos\\movie.mp4", "movie.mp4", false, 5_000_000_000);
    assert!(matches!(cat, FileCategory::Regular));
    assert_eq!(score, 70);
}

#[test]
fn test_categorize_code_files() {
    let (cat, score) = categorize_file("C:\\Projects\\main.rs", "main.rs", false, 5000);
    assert!(matches!(cat, FileCategory::Regular));
    assert_eq!(score, 85);

    let (cat, score) = categorize_file("C:\\Projects\\app.py", "app.py", false, 1000);
    assert!(matches!(cat, FileCategory::Regular));
    assert_eq!(score, 85);
}

#[test]
fn test_categorize_archives_size_dependent() {
    // Small archive
    let (cat, score) = categorize_file("C:\\Downloads\\file.zip", "file.zip", false, 10_000_000);
    assert!(matches!(cat, FileCategory::Regular));
    assert_eq!(score, 55);

    // Large archive
    let (cat, score) = categorize_file("C:\\Downloads\\huge.zip", "huge.zip", false, 2_000_000_000);
    assert!(matches!(cat, FileCategory::Regular));
    assert_eq!(score, 30);
}

#[test]
fn test_categorize_iso_low_usefulness() {
    let (cat, score) =
        categorize_file("C:\\Downloads\\windows.iso", "windows.iso", false, 5_000_000_000);
    assert!(matches!(cat, FileCategory::Regular));
    assert_eq!(score, 25);
}

#[test]
fn test_categorize_executables_in_downloads() {
    let (cat, score) =
        categorize_file("C:\\Downloads\\installer.exe", "installer.exe", false, 100_000_000);
    assert!(matches!(cat, FileCategory::Regular));
    assert_eq!(score, 35);
}

#[test]
fn test_categorize_backup_files() {
    let (cat, score) = categorize_file("C:\\data.bak", "data.bak", false, 1000);
    assert!(matches!(cat, FileCategory::Regular));
    assert_eq!(score, 40);

    let (cat, score) = categorize_file("C:\\backup_2024", "backup_2024", true, 0);
    assert!(matches!(cat, FileCategory::Regular));
    assert_eq!(score, 40);
}

#[test]
fn test_categorize_special_folders() {
    // node_modules - low usefulness
    let (cat, score) = categorize_file("C:\\project\\node_modules", "node_modules", true, 0);
    assert!(matches!(cat, FileCategory::Regular));
    assert_eq!(score, 30);

    // Documents folder - high usefulness
    let (cat, score) = categorize_file("C:\\Users\\John\\Documents", "Documents", true, 0);
    assert!(matches!(cat, FileCategory::Regular));
    assert_eq!(score, 95);

    // Downloads - medium
    let (cat, score) = categorize_file("C:\\Users\\John\\Downloads", "Downloads", true, 0);
    assert!(matches!(cat, FileCategory::Regular));
    assert_eq!(score, 50);
}

// ==================== Rule Precedence Tests ====================

#[test]
fn test_protected_beats_disposable_pattern() {
    // A protected name that also carries a disposable suffix stays protected.
    let (cat, score) = categorize_file("D:\\x\\$leftover.tmp", "$leftover.tmp", false, 10);
    assert!(matches!(cat, FileCategory::MustKeep));
    assert_eq!(score, 100);

    // Without the protection the same suffix is disposable.
    let (cat, score) = categorize_file("D:\\x\\leftover.tmp", "leftover.tmp", false, 10);
    assert!(matches!(cat, FileCategory::Useless));
    assert_eq!(score, 5);
}

#[test]
fn test_categorize_is_deterministic() {
    let first = categorize_file("C:\\Videos\\movie.mp4", "movie.mp4", false, 5_000_000_000);
    let second = categorize_file("C:\\Videos\\movie.mp4", "movie.mp4", false, 5_000_000_000);
    assert_eq!(first.0 == second.0, true);
    assert_eq!(first.1, second.1);
}

#[test]
fn test_categorize_dotfile_has_no_extension() {
    let (cat, score) = categorize_file("C:\\p\\.gitignore", ".gitignore", false, 10);
    assert!(matches!(cat, FileCategory::Regular));
    assert_eq!(score, 60);
}

#[test]
fn test_categorize_audio_files() {
    let (cat, score) = categorize_file("C:\\Music\\song.mp3", "song.mp3", false, 9_000_000);
    assert!(matches!(cat, FileCategory::Regular));
    assert_eq!(score, 80);
}

#[test]
fn test_categorize_archive_middle_band() {
    let (cat, score) = categorize_file("C:\\Downloads\\mid.zip", "mid.zip", false, 200_000_000);
    assert!(matches!(cat, FileCategory::Regular));
    assert_eq!(score, 45);
}

#[test]
fn test_categorize_executable_outside_downloads() {
    let (cat, score) = categorize_file("C:\\Tools\\setup.exe", "setup.exe", false, 1_000_000);
    assert!(matches!(cat, FileCategory::Regular));
    assert_eq!(score, 60);
}

#[test]
fn test_categorize_fallback_middle_band() {
    let (cat, score) = categorize_file("C:\\data\\blob.xyz", "blob.xyz", false, 200_000_000);
    assert!(matches!(cat, FileCategory::Regular));
    assert_eq!(score, 55);
}

// ==================== File Icon Tests ====================

#[test]
fn test_folder_icons() {
    assert_eq!(
        get_file_icon("folder", true, false, FileCategory::Regular),
        "\u{f8ff}\u{fc}\u{ec}\u{c5}"
    );
    assert_eq!(
        get_file_icon("empty", true, true, FileCategory::Regular),
        "\u{f8ff}\u{fc}\u{ec}\u{c7}"
    );
}

#[test]
fn test_image_icons() {
    assert_eq!(
        get_file_icon("photo.jpg", false, false, FileCategory::Regular),
        "\u{f8ff}\u{fc}\u{f1}\u{ba}\u{d4}\u{220f}\u{e8}"
    );
    assert_eq!(
        get_file_icon("image.png", false, false, FileCategory::Regular),
        "\u{f8ff}\u{fc}\u{f1}\u{ba}\u{d4}\u{220f}\u{e8}"
    );
    assert_eq!(
        get_file_icon("icon.ico", false, false, FileCategory::Regular),
        "\u{f8ff}\u{fc}\u{f1}\u{ba}\u{d4}\u{220f}\u{e8}"
    );
}

#[test]
fn test_video_icons() {
    assert_eq!(
        get_file_icon("movie.mp4", false, false, FileCategory::Regular),
        "\u{f8ff}\u{fc}\u{e9}\u{a8}"
    );
    assert_eq!(
        get_file_icon("clip.mkv", false, false, FileCategory::Regular),
        "\u{f8ff}\u{fc}\u{e9}\u{a8}"
    );
}

#[test]
fn test_audio_icons() {
    assert_eq!(
        get_file_icon("song.mp3", false, false, FileCategory::Regular),
        "\u{f8ff}\u{fc}\u{e9}\u{b5}"
    );
    assert_eq!(
        get_file_icon("audio.wav", false, false, FileCategory::Regular),
        "\u{f8ff}\u{fc}\u{e9}\u{b5}"
    );
}

#[test]
fn test_document_icons() {
    assert_eq!(
        get_file_icon("doc.pdf", false, false, FileCategory::Regular),
        "\u{f8ff}\u{fc}\u{ec}\u{ef}"
    );
    assert_eq!(
        get_file_icon("doc.docx", false, false, FileCategory::Regular),
        "\u{f8ff}\u{fc}\u{ec}\u{f2}"
    );
    assert_eq!(
        get_file_icon("data.xlsx", false, false, FileCategory::Regular),
        "\u{f8ff}\u{fc}\u{ec}\u{f3}"
    );
    assert_eq!(
        get_file_icon("slides.pptx", false, false, FileCategory::Regular),
        "\u{f8ff}\u{fc}\u{ec}\u{f4}"
    );
    assert_eq!(
        get_file_icon("notes.txt", false, false, FileCategory::Regular),
        "\u{f8ff}\u{fc}\u{ec}\u{f9}"
    );
}

#[test]
fn test_code_icons() {
    assert_eq!(
        get_file_icon("main.rs", false, false, FileCategory::Regular),
        "\u{f8ff}\u{fc}\u{ed}\u{aa}"
    );
    assert_eq!(
        get_file_icon("app.py", false, false, FileCategory::Regular),
        "\u{f8ff}\u{fc}\u{ed}\u{aa}"
    );
    assert_eq!(
        get_file_icon("index.html", false, false, FileCategory::Regular),
        "\u{f8ff}\u{fc}\u{e5}\u{ea}"
    );
    assert_eq!(
        get_file_icon("config.json", false, false, FileCategory::Regular),
        "\u{f8ff}\u{fc}\u{e5}\u{ea}"
    );
}

#[test]
fn test_archive_icons() {
    assert_eq!(
        get_file_icon("files.zip", false, false, FileCategory::Regular),
        "\u{f8ff}\u{fc}\u{ec}\u{b6}"
    );
    assert_eq!(
        get_file_icon("backup.7z", false, false, FileCategory::Regular),
        "\u{f8ff}\u{fc}\u{ec}\u{b6}"
    );
}

#[test]
fn test_executable_icons() {
    assert_eq!(
        get_file_icon("app.exe", false, false, FileCategory::Regular),
        "\u{201a}\u{f6}\u{b0}"
    );
    assert_eq!(
        get_file_icon("script.bat", false, false, FileCategory::Regular),
        "\u{201a}\u{f6}\u{b0}"
    );
}

#[test]
fn test_category_fallback_icons() {
    assert_eq!(
        get_file_icon("unknown.xyz", false, false, FileCategory::MustKeep),
        "\u{f8ff}\u{fc}\u{ee}\u{ed}"
    );
    assert_eq!(
        get_file_icon("driver.sys", false, false, FileCategory::System),
        "\u{201a}\u{f6}\u{f4}\u{d4}\u{220f}\u{e8}"
    );
    assert_eq!(
        get_file_icon("file.dat", false, false, FileCategory::Regular),
        "\u{f8ff}\u{fc}\u{ec}\u{d1}"
    );
    assert_eq!(
        get_file_icon("cache.dat", false, false, FileCategory::Useless),
        "\u{f8ff}\u{fc}\u{f3}\u{eb}\u{d4}\u{220f}\u{e8}"
    );
}

#[test]
fn test_unknown_category_icon() {
    assert_eq!(
        get_file_icon("mystery.qqq", false, false, FileCategory::Unknown),
        "\u{201a}\u{f9}\u{ec}"
    );
}

// ==================== Edge Case Tests ====================

#[test]
fn test_empty_filename() {
    let (cat, score) = categorize_file("C:\\", "", true, 0);
    assert!(matches!(cat, FileCategory::Regular));
    assert_eq!(score, 65); // Default folder usefulness
}

#[test]
fn test_very_large_file_size() {
    let huge_size: u64 = 10_000_000_000_000; // 10 TB
    let (cat, score) = categorize_file("C:\\huge.dat", "huge.dat", false, huge_size);
    assert!(matches!(cat, FileCategory::Regular));
    assert_eq!(score, 45); // Large unknown file
}

#[test]
fn test_deep_nested_path() {
    let deep_path = "C:\\a\\b\\c\\d\\e\\f\\g\\h\\i\\j\\file.txt";
    let (cat, score) = categorize_file(deep_path, "file.txt", false, 100);
    assert!(matches!(cat, FileCategory::Regular));
    assert_eq!(score, 90); // txt file
}

#[test]
fn test_special_characters_in_name() {
    let (cat, _) = categorize_file("C:\\file (1).txt", "file (1).txt", false, 100);
    assert!(matches!(cat, FileCategory::Regular));

    let (cat, _) = categorize_file("C:\\file [backup].txt", "file [backup].txt", false, 100);
    assert!(matches!(cat, FileCategory::Regular));
}
