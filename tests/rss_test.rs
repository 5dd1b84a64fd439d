use feed_engine::rss::{convert_btreemap_to_vec, convert_to_tree, RssSource, RssTreeVec};

fn source(id: i32, channel: &str, name: &str) -> RssSource {
    RssSource {
        id,
        channel: channel.to_string(),
        name: name.to_string(),
        url: format!("https://example.com/{id}"),
        description: None,
        logo_img: None,
        background_img: None,
    }
}

fn names(v: &RssTreeVec) -> Vec<String> {
    v.children.iter().map(|c| c.name.clone()).collect()
}

#[test]
fn sources_grouped_by_channel_and_name_parts() {
    let tree = convert_to_tree(vec![
        source(1, "arxiv", "math"),
        source(2, "arxiv", "cs|CL"),
        source(3, "arxiv", "cs|AI"),
        source(4, "blogs", "tech"),
    ])
    .unwrap();
    let v = convert_btreemap_to_vec(tree);
    assert_eq!(v.name, "root");
    assert!(v.data.is_none());
    assert_eq!(names(&v), vec!["arxiv", "blogs"]);
    let arxiv = &v.children[0];
    assert_eq!(names(arxiv), vec!["cs", "math"]);
    let cs = &arxiv.children[0];
    assert!(cs.data.is_none());
    assert_eq!(names(cs), vec!["AI", "CL"]);
    assert_eq!(cs.children[0].data.as_ref().unwrap().id, 3);
    assert!(cs.children[0].children.is_empty());
    assert_eq!(arxiv.children[1].data.as_ref().unwrap().id, 1);
    assert_eq!(v.children[1].children[0].data.as_ref().unwrap().id, 4);
}

#[test]
fn same_path_keeps_the_later_source() {
    let tree = convert_to_tree(vec![source(1, "a", "x|y"), source(2, "a", "x|y")]).unwrap();
    let v = convert_btreemap_to_vec(tree);
    assert_eq!(v.children[0].children[0].children[0].data.as_ref().unwrap().id, 2);
    assert_eq!(v.children[0].children[0].children.len(), 1);
}

#[test]
fn source_replaces_group_at_its_path() {
    let tree = convert_to_tree(vec![source(1, "a", "x|y"), source(2, "a", "x")]).unwrap();
    let v = convert_btreemap_to_vec(tree);
    let x = &v.children[0].children[0];
    assert_eq!(x.name, "x");
    assert_eq!(x.data.as_ref().unwrap().id, 2);
    assert!(x.children.is_empty());
}

#[test]
fn path_through_a_source_is_refused() {
    assert!(convert_to_tree(vec![source(1, "a", "x"), source(2, "a", "x|y")]).is_none());
}

#[test]
fn empty_source_list_gives_bare_root() {
    let v = convert_btreemap_to_vec(convert_to_tree(vec![]).unwrap());
    assert_eq!(v.name, "root");
    assert!(v.children.is_empty());
}

#[test]
fn names_order_by_bytes() {
    let tree = convert_to_tree(vec![source(1, "c", "b"), source(2, "c", "B"), source(3, "c", "é"), source(4, "c", "ab")]).unwrap();
    let v = convert_btreemap_to_vec(tree);
    assert_eq!(names(&v.children[0]), vec!["B", "ab", "b", "é"]);
}
