use cbx::cbor_parser::CborParser;
use cbx::cbor_tree::CborNode;

fn tree(bytes: &[u8]) -> CborNode {
    let mut p = CborParser::new(bytes);
    p.parse().unwrap().to_node(None, 0, Vec::new())
}

// [[1, 2], {"a": [3]}, 4]
const NESTED: [u8; 12] = [0x83, 0x82, 0x01, 0x02, 0xA1, 0x61, 0x61, 0x81, 0x03, 0x04, 0x00, 0x00];

#[test]
fn flatten_lists_visible_nodes_in_order() {
    let t = tree(&NESTED[..10]);
    let flat = t.flatten();
    // root and its three children are open (depth < 2); [3] at depth 2 is closed
    let keys: Vec<Option<&str>> = flat.iter().map(|n| n.key.as_deref()).collect();
    assert_eq!(
        keys,
        vec![None, Some("[0]"), Some("[0]"), Some("[1]"), Some("[1]"), Some("a"), Some("[2]")]
    );
    assert!(t.has_children());
}

#[test]
fn expand_all_shows_every_node() {
    let mut t = tree(&NESTED[..10]);
    t.expand_all();
    assert_eq!(t.flatten().len(), t.flatten_all().len());
    assert_eq!(t.flatten_all().len(), 8);
}

#[test]
fn collapse_all_shows_only_the_root() {
    let mut t = tree(&NESTED[..10]);
    t.collapse_all();
    assert_eq!(t.flatten().len(), 1);
    assert!(!t.children[0].expanded);
}

#[test]
fn node_at_index_is_the_flattened_node() {
    let mut t = tree(&NESTED[..10]);
    let expected: Vec<(Option<String>, std::ops::Range<usize>)> =
        t.flatten().iter().map(|n| (n.key.clone(), n.range.clone())).collect();
    for (i, (key, range)) in expected.iter().enumerate() {
        let n = t.get_node_at_index_mut(i).unwrap();
        assert_eq!(&n.key, key);
        assert_eq!(&n.range, range);
    }
    assert!(t.get_node_at_index_mut(expected.len()).is_none());
}

#[test]
fn changing_the_node_at_an_index_changes_the_tree() {
    let mut t = tree(&NESTED[..10]);
    // the node "a" at position 5 holds [3]; open it
    let n = t.get_node_at_index_mut(5).unwrap();
    assert_eq!(n.key.as_deref(), Some("a"));
    n.expanded = true;
    assert_eq!(t.flatten().len(), 8);
}

#[test]
fn path_to_offset_follows_the_covering_nodes() {
    let t = tree(&NESTED[..10]);
    // byte 8 is the 3 inside {"a": [3]}
    let path = t.get_path_to_offset(8);
    let ranges: Vec<std::ops::Range<usize>> = path.iter().map(|n| n.range.clone()).collect();
    assert_eq!(ranges, vec![0..10, 4..9, 5..9, 8..9]);
    assert!(t.get_path_to_offset(10).is_empty());
}

#[test]
fn expanding_the_path_makes_it_visible() {
    let mut t = tree(&NESTED[..10]);
    t.collapse_all();
    assert!(t.expand_path_to_offset(8));
    let visible: Vec<std::ops::Range<usize>> = t.flatten().iter().map(|n| n.range.clone()).collect();
    for r in [0..10, 4..9, 5..9, 8..9] {
        assert!(visible.contains(&r));
    }
    assert!(!t.expand_path_to_offset(99));
}

#[test]
fn clone_is_equal() {
    let t = tree(&NESTED[..10]);
    let c = t.clone_node();
    assert_eq!(c.flatten_all().len(), t.flatten_all().len());
    assert_eq!(c.children[1].full_value, t.children[1].full_value);
}

fn shape(t: &CborNode) -> Vec<(std::ops::Range<usize>, bool, Option<String>, String)> {
    t.flatten_all().iter().map(|n| (n.range.clone(), n.expanded, n.key.clone(), n.value_preview.clone())).collect()
}

#[test]
fn writing_back_an_untouched_node_changes_nothing() {
    let mut t = tree(&NESTED[..10]);
    let before = shape(&t);
    for i in 0..t.flatten().len() {
        assert!(t.get_node_at_index_mut(i).is_some());
        assert_eq!(shape(&t), before);
    }
    assert!(t.get_node_at_index_mut(99).is_none());
    assert_eq!(shape(&t), before);
}

#[test]
fn the_expanded_path_is_shown_in_order() {
    let mut t = tree(&NESTED[..10]);
    t.collapse_all();
    let before: Vec<std::ops::Range<usize>> = t.get_path_to_offset(8).iter().map(|n| n.range.clone()).collect();
    assert!(t.expand_path_to_offset(8));
    let after: Vec<std::ops::Range<usize>> = t.get_path_to_offset(8).iter().map(|n| n.range.clone()).collect();
    assert_eq!(before, after);
    let visible: Vec<std::ops::Range<usize>> = t.flatten().iter().map(|n| n.range.clone()).collect();
    let mut last = None;
    for r in after.iter() {
        let pos = visible.iter().position(|v| v == r).unwrap();
        if let Some(l) = last {
            assert!(pos > l);
        }
        last = Some(pos);
    }
    assert!(t.get_path_to_offset(8).iter().all(|n| n.expanded || n.children.is_empty()));
}
