use neighbours::octree_nnps::Node;

fn in_order(node: &Node, out: &mut Vec<usize>) {
    if let Some(l) = &node.l {
        in_order(l, out);
    }
    out.push(node.val);
    if let Some(r) = &node.r {
        in_order(r, out);
    }
}

#[test]
fn test_bst_insert() {
    let mut x = Node { val: 1, l: None, r: None };
    x.insert(100);
    x.insert(3);
    x.insert(6);
    println!("{:?}", x);
}

#[test]
fn test_bst_insert_keeps_order_and_skips_duplicates() {
    let mut x = Node { val: 50, l: None, r: None };
    for v in [20, 80, 20, 10, 30, 90, 50, 60] {
        x.insert(v);
    }
    let mut values = vec![];
    in_order(&x, &mut values);
    assert_eq!(vec![10, 20, 30, 50, 60, 80, 90], values);
    assert_eq!(50, x.val);
    assert_eq!(20, x.l.as_ref().unwrap().val);
    assert_eq!(80, x.r.as_ref().unwrap().val);
}
