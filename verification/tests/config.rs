use theme_switch::config::{patch_import_line, theme_import_path};

fn lines(texts: &[&str]) -> Vec<String> {
    texts.iter().map(|t| t.to_string()).collect()
}

#[test]
fn patch_replaces_import_line() {
    let input = lines(&["a=1", "import = [\"old\"]", "b=2"]);
    let path = theme_import_path("~/.config/alacritty/themes/", "foo.toml");
    let out = patch_import_line(&input, path.as_str());
    assert_eq!(
        out,
        lines(&["a=1", "import = [\"~/.config/alacritty/themes/foo.toml\"]", "b=2"])
    );
    let changed = input.iter().zip(out.iter()).filter(|(a, b)| a != b).count();
    assert_eq!(changed, 1);
}

#[test]
fn patch_without_import_changes_nothing() {
    let input = lines(&["a=1", "b=2"]);
    let out = patch_import_line(&input, "anything");
    assert_eq!(out, input);
}

#[test]
fn patch_keeps_count_and_order() {
    let input = lines(&["x", "import old", "y", "z"]);
    let out = patch_import_line(&input, "p");
    assert_eq!(out.len(), input.len());
    assert_eq!(out[0], "x");
    assert_eq!(out[1], "import = [\"p\"]");
    assert_eq!(out[2], "y");
    assert_eq!(out[3], "z");
}

#[test]
fn patch_first_import_only() {
    let input = lines(&["import = [\"one\"]", "import = [\"two\"]"]);
    let out = patch_import_line(&input, "new");
    assert_eq!(out[0], "import = [\"new\"]");
    assert_eq!(out[1], "import = [\"two\"]");
}

#[test]
fn patch_empty_file() {
    let input: Vec<String> = Vec::new();
    let out = patch_import_line(&input, "p");
    assert!(out.is_empty());
}

#[test]
fn import_path_concatenates() {
    let p = theme_import_path("~/.config/alacritty/themes/", "night.toml");
    assert_eq!(p, "~/.config/alacritty/themes/night.toml");
}
