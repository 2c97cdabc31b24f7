use courses::assets::{GUIDE_CSS_PATH, PageAssets, push_unique};
#[test]
fn base_holds_only_guide_css_and_no_scripts() {
    let assets = PageAssets::base();
    assert_eq!(assets.styles, vec![GUIDE_CSS_PATH]);
    assert!(assets.scripts.is_empty());
}

#[test]
fn pushing_duplicate_style_leaves_one_entry() {
    let mut assets = PageAssets::base();
    assets.push_style(GUIDE_CSS_PATH);
    assert_eq!(assets.styles.len(), 1);
}

#[test]
fn pushing_two_distinct_scripts_preserves_insertion_order() {
    let mut assets = PageAssets::base();
    assets.push_script("/a.js");
    assets.push_script("/b.js");
    assert_eq!(assets.scripts, vec!["/a.js", "/b.js"]);
}

#[test]
fn push_unique_on_empty_list_appends() {
    let mut list: Vec<String> = Vec::new();
    push_unique(&mut list, "/x.css");
    assert_eq!(list, vec!["/x.css"]);
}
