use cherry::scan::{select_wallpapers, ScanEntry};
use cherry::wallpapers::{filtered, fuzzy_match, Wallpaper};
use std::path::PathBuf;

fn wall(path: &str, name: &str) -> Wallpaper {
    Wallpaper { path: path.into(), name: name.into() }
}

fn entry(name: &str, is_file: bool, extension: Option<&str>) -> ScanEntry {
    ScanEntry {
        path: PathBuf::from(format!("/walls/{name}")),
        is_file,
        extension: extension.map(|e| e.to_string()),
        file_name: Some(name.to_string()),
    }
}

#[test]
fn fuzzy_matches_subsequence_case_insensitive() {
    assert!(fuzzy_match("", "anything"));
    assert!(fuzzy_match("nbhd", "nbhd_v2.jpg"));
    assert!(fuzzy_match("NV2", "nbhd_v2.jpg"));
    assert!(!fuzzy_match("xyz", "nbhd_v2.jpg"));
}

#[test]
fn filtered_returns_matching_indices() {
    let walls = vec![
        Wallpaper { path: "a".into(), name: "nasa.png".into() },
        Wallpaper { path: "b".into(), name: "nbhd_v2.jpg".into() },
        Wallpaper { path: "c".into(), name: "symbols.jpg".into() },
    ];
    assert_eq!(filtered(&walls, ""), vec![0, 1, 2]);
    assert_eq!(filtered(&walls, "nb"), vec![1]);
    assert_eq!(filtered(&walls, "s"), vec![0, 2]);
    assert_eq!(filtered(&walls, "zz"), Vec::<usize>::new());
}

#[test]
fn fuzzy_respects_order_and_multiplicity() {
    assert!(!fuzzy_match("ba", "ab"));
    assert!(fuzzy_match("ab", "xaxbx"));
    assert!(!fuzzy_match("aa", "a"));
    assert!(fuzzy_match("aa", "banana"));
    assert!(!fuzzy_match("longer", "long"));
    assert!(!fuzzy_match("a", ""));
    assert!(fuzzy_match("", ""));
}

#[test]
fn fuzzy_lowercases_both_sides_beyond_ascii() {
    assert!(fuzzy_match("ÉTÉ", "été.png"));
    assert!(fuzzy_match("été", "ÉTÉ.PNG"));
    assert!(fuzzy_match("Ω", "ωmega.jpg"));
}

#[test]
fn fuzzy_case_insensitive_law_on_values() {
    let text = "Sunset_Beach.JPG";
    for (a, b) in [("sun", "SUN"), ("beach", "BeAcH"), ("xyz", "XYZ")] {
        assert_eq!(fuzzy_match(a, text), fuzzy_match(b, text));
    }
}

#[test]
fn filtered_keeps_order_and_is_exact() {
    let walls = vec![wall("1", "alpha.png"), wall("2", "beta.png"), wall("3", "gamma.png"), wall("4", "Alps.jpg")];
    assert_eq!(filtered(&walls, "al"), vec![0, 3]);
    assert_eq!(filtered(&walls, "A"), vec![0, 1, 2, 3]);
    assert_eq!(filtered(&walls, "mm"), vec![2]);
    assert_eq!(filtered(&[], "a"), Vec::<usize>::new());
    assert_eq!(filtered(&[], ""), Vec::<usize>::new());
}

#[test]
fn select_keeps_only_image_files_sorted_by_name() {
    let entries = vec![
        entry("b.png", true, Some("png")),
        entry("a.jpg", true, Some("jpg")),
        entry("c.jpeg", true, Some("jpeg")),
        entry("notes.txt", true, Some("txt")),
        entry("d.webp", true, Some("webp")),
        entry("sub.png", false, Some("png")),
        entry("README", true, None),
    ];
    let walls = select_wallpapers(entries);
    let names: Vec<&str> = walls.iter().map(|w| w.name.as_str()).collect();
    assert_eq!(names, vec!["a.jpg", "b.png", "c.jpeg"]);
    assert_eq!(walls[0].path, PathBuf::from("/walls/a.jpg"));
}

#[test]
fn select_accepts_extensions_in_any_case() {
    let entries = vec![entry("Z.PNG", true, Some("PNG")), entry("y.JpEg", true, Some("JpEg")), entry("x.Gif", true, Some("Gif"))];
    let names: Vec<String> = select_wallpapers(entries).into_iter().map(|w| w.name).collect();
    assert_eq!(names, vec!["Z.PNG", "y.JpEg"]);
}

#[test]
fn select_drops_entries_without_a_name() {
    let mut nameless = entry("q.png", true, Some("png"));
    nameless.file_name = None;
    let walls = select_wallpapers(vec![nameless, entry("r.png", true, Some("png"))]);
    assert_eq!(walls.len(), 1);
    assert_eq!(walls[0].name, "r.png");
}

#[test]
fn select_orders_by_code_point_and_is_stable() {
    let mut first = entry("same.png", true, Some("png"));
    first.path = PathBuf::from("/one/same.png");
    let mut second = entry("same.png", true, Some("png"));
    second.path = PathBuf::from("/two/same.png");
    let entries = vec![
        entry("b.png", true, Some("png")),
        first,
        entry("B.png", true, Some("png")),
        second,
        entry("ab.png", true, Some("png")),
        entry("a.png", true, Some("png")),
        entry("é.png", true, Some("png")),
    ];
    let walls = select_wallpapers(entries);
    let names: Vec<&str> = walls.iter().map(|w| w.name.as_str()).collect();
    assert_eq!(names, vec!["B.png", "a.png", "ab.png", "b.png", "same.png", "same.png", "é.png"]);
    assert_eq!(walls[4].path, PathBuf::from("/one/same.png"));
    assert_eq!(walls[5].path, PathBuf::from("/two/same.png"));
}

#[test]
fn select_of_nothing_is_empty() {
    assert!(select_wallpapers(Vec::new()).is_empty());
}

#[test]
fn wallpaper_clone_keeps_path_and_name() {
    let w = wall("/walls/a.png", "a.png");
    let c = w.clone();
    assert_eq!(c.path, w.path);
    assert_eq!(c.name, w.name);
}

#[test]
fn longer_query_matches_less() {
    let texts = ["nbhd_v2.jpg", "nasa.png", "symbols.jpg", "Sunset.PNG"];
    for text in texts {
        for (q, s) in [("n", "b"), ("s", "y"), ("SU", "N"), ("", "x")] {
            let longer = format!("{q}{s}");
            if fuzzy_match(&longer, text) {
                assert!(fuzzy_match(q, text));
            }
        }
    }
    assert!(fuzzy_match("n", "nasa.png") && !fuzzy_match("nb", "nasa.png"));
}

#[test]
fn typing_more_narrows_the_list_in_order() {
    let walls = vec![wall("1", "nasa.png"), wall("2", "nbhd_v2.jpg"), wall("3", "symbols.jpg"), wall("4", "snow.png")];
    assert_eq!(filtered(&walls, "s"), vec![0, 2, 3]);
    assert_eq!(filtered(&walls, "sn"), vec![0, 3]);
    assert_eq!(filtered(&walls, "n"), vec![0, 1, 3]);
    assert_eq!(filtered(&walls, "nbh"), vec![1]);
}

#[test]
fn filtered_on_ascii_names_lowers_only_letters() {
    let walls = vec![wall("1", "A_B.png"), wall("2", "a-b.jpg"), wall("3", "AB.jpeg")];
    assert_eq!(filtered(&walls, "A_"), vec![0]);
    assert_eq!(filtered(&walls, "ab"), vec![0, 1, 2]);
}
