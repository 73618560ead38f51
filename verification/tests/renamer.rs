use bangumi::renamer::{BangumiInfo, FileSystemModel, FsNode, RenameError, extension_of, rename, replace_path};

fn info(show: &str, season: u64, episode: u64, episode_name: Option<&str>) -> BangumiInfo {
    BangumiInfo {
        show_name: String::from(show),
        episode_name: episode_name.map(String::from),
        display_name: None,
        season,
        episode,
        category: None,
    }
}

#[test]
fn test_gen_path() {
    let bangumi_infos = vec![
        BangumiInfo {
            show_name: String::from("Sousou no Frieren"),
            season: 1,
            episode: 12,
            ..Default::default()
        },
        BangumiInfo {
            show_name: String::from("Sousou no Frieren"),
            episode_name: Some(String::from("冒险的终点")),
            display_name: None,
            season: 1,
            episode: 1,
            category: None,
        },
    ];

    let res_paths = vec![
        String::from("Sousou no Frieren/Season 1/Sousou no Frieren S01E12.mkv"),
        String::from("Sousou no Frieren/Season 1/Sousou no Frieren S01E01 冒险的终点.mkv"),
    ];

    for (info, res_path) in bangumi_infos.iter().zip(res_paths.iter()) {
        assert_eq!(info.gen_path("mkv"), *res_path);
    }
}

#[test]
fn test_rename() {
    let src_path = "/tmp/Sousou no Frieren S01E00.mkv";
    let mut fs = FileSystemModel::new();
    fs.add_file(src_path, 7);

    let dst_folder = "/tmp/TV";
    let bangumi_info = BangumiInfo {
        show_name: String::from("Sousou no Frieren"),
        season: 1,
        episode: 12,
        ..Default::default()
    };

    rename(&bangumi_info, src_path, dst_folder, &mut fs).unwrap();

    let dst_path = "/tmp/TV/Sousou no Frieren/Season 1/Sousou no Frieren S01E12.mkv";
    assert_eq!(fs.node_at(dst_path), Some(FsNode::File(7)));
}

#[test]
fn test_link_idempotent() {
    let mut fs = FileSystemModel::new();
    fs.add_file("/dl/Show S01E02.mkv", 42);
    let i = info("Show", 1, 2, None);
    assert_eq!(rename(&i, "/dl/Show S01E02.mkv", "/tv", &mut fs), Ok(()));
    assert_eq!(rename(&i, "/dl/Show S01E02.mkv", "/tv", &mut fs), Ok(()));
    let dst = "/tv/Show/Season 1/Show S01E02.mkv";
    assert_eq!(fs.node_at(dst), fs.node_at("/dl/Show S01E02.mkv"));
}

#[test]
fn test_link_not_found() {
    let mut fs = FileSystemModel::new();
    let i = info("Show", 1, 2, None);
    assert_eq!(rename(&i, "/dl/missing.mkv", "/tv", &mut fs), Err(RenameError::NotFound));
}

#[test]
fn test_link_missing_extension() {
    let mut fs = FileSystemModel::new();
    fs.add_file("/dl/noext", 1);
    let i = info("Show", 1, 2, None);
    assert_eq!(rename(&i, "/dl/noext", "/tv", &mut fs), Err(RenameError::MissingExtension));
}

#[test]
fn test_link_unsupported_type() {
    let mut fs = FileSystemModel::new();
    fs.add_directory("/dl/folder.mkv");
    let i = info("Show", 1, 2, None);
    assert_eq!(rename(&i, "/dl/folder.mkv", "/tv", &mut fs), Err(RenameError::UnsupportedType));
}

#[test]
fn test_extension_of() {
    assert_eq!(extension_of("a/b/c.mkv"), Some(String::from("mkv")));
    assert_eq!(extension_of("a/.hidden"), None);
    assert_eq!(extension_of("a.b/c"), None);
    assert_eq!(extension_of("file."), Some(String::from("")));
    assert_eq!(extension_of("noext"), None);
    assert_eq!(extension_of("x.tar.gz"), Some(String::from("gz")));
}

#[test]
fn test_replace_path() {
    assert_eq!(
        replace_path("/downloads/a.mkv", "/downloads", "/mnt/media"),
        String::from("/mnt/media/a.mkv"),
    );
    assert_eq!(
        replace_path("/elsewhere/a.mkv", "/downloads", "/mnt/media"),
        String::from("/elsewhere/a.mkv"),
    );
}

#[test]
fn test_file_name_padding() {
    let i = info("Show", 5, 7, None);
    assert_eq!(i.file_name(".mkv"), String::from("Show S05E07.mkv"));
    let big = info("Show", 12, 345, None);
    assert_eq!(big.file_name(".mkv"), String::from("Show S12E345.mkv"));
    assert_eq!(big.sub_folder_name(), String::from("Season 12"));
    assert_eq!(big.folder_name(), String::from("Show"));
}

#[test]
fn test_file_name_large_numbers() {
    let i = info("Show", 9999, 1000, None);
    assert_eq!(i.file_name(".mkv"), String::from("Show S9999E1000.mkv"));
    assert_eq!(i.sub_folder_name(), String::from("Season 9999"));
}

#[test]
fn test_file_name_display_tag() {
    let mut i = info("Show", 1, 2, Some("Finale"));
    i.display_name = Some(String::from("1080p"));
    assert_eq!(i.file_name(".mkv"), String::from("Show S01E02 Finale 1080p.mkv"));
}
