use openssl::sha::sha256;
use sequencer::merkle_tree::Head;

fn pair(l: &[u8; 32], r: &[u8; 32]) -> [u8; 32] {
    let mut both = Vec::new();
    both.extend_from_slice(l);
    both.extend_from_slice(r);
    sha256(&both)
}

fn leaf(i: u8) -> [u8; 32] {
    sha256(&[i, i, i])
}

#[test]
fn new_tree_holds_the_zero_leaf() {
    let head = Head::new();
    assert_eq!(head.leaf_count(), 1);
    assert_eq!(head.print_root(), "00".repeat(32));
    assert_eq!(head.print_tree(), vec!["00".repeat(32)]);
}

#[test]
fn two_leaves_hash_as_a_pair() {
    let mut head = Head::new();
    head.append_leaf(leaf(1));
    assert_eq!(head.leaf_count(), 2);
    let root = pair(&[0u8; 32], &leaf(1));
    assert_eq!(head.print_root(), hex::encode(root));
    assert_eq!(
        head.print_tree(),
        vec!["00".repeat(32), hex::encode(leaf(1)), hex::encode(root)]
    );
}

#[test]
fn three_leaves_split_at_two() {
    let mut head = Head::new();
    head.append_leaf(leaf(1));
    head.append_leaf(leaf(2));
    let left = pair(&[0u8; 32], &leaf(1));
    let root = pair(&left, &leaf(2));
    assert_eq!(head.leaf_count(), 3);
    assert_eq!(head.print_root(), hex::encode(root));
}

#[test]
fn five_leaves_split_at_four() {
    let mut head = Head::new();
    for i in 1..5u8 {
        head.append_leaf(leaf(i));
    }
    let l01 = pair(&[0u8; 32], &leaf(1));
    let l23 = pair(&leaf(2), &leaf(3));
    let left = pair(&l01, &l23);
    let root = pair(&left, &leaf(4));
    assert_eq!(head.leaf_count(), 5);
    assert_eq!(head.print_root(), hex::encode(root));
    let lines = head.print_tree();
    assert_eq!(lines.len(), 9);
    assert_eq!(lines[2], hex::encode(l01));
    assert_eq!(lines[6], hex::encode(left));
    assert_eq!(lines[7], hex::encode(leaf(4)));
    assert_eq!(lines[8], hex::encode(root));
}

#[test]
fn seven_leaves_nest_on_the_right() {
    let mut head = Head::new();
    for i in 1..7u8 {
        head.append_leaf(leaf(i));
    }
    let l01 = pair(&[0u8; 32], &leaf(1));
    let l23 = pair(&leaf(2), &leaf(3));
    let l45 = pair(&leaf(4), &leaf(5));
    let left = pair(&l01, &l23);
    let right = pair(&l45, &leaf(6));
    let root = pair(&left, &right);
    assert_eq!(head.print_root(), hex::encode(root));
}

#[test]
fn eight_leaves_make_a_full_tree() {
    let mut head = Head::new();
    for i in 1..8u8 {
        head.append_leaf(leaf(i));
    }
    let l01 = pair(&[0u8; 32], &leaf(1));
    let l23 = pair(&leaf(2), &leaf(3));
    let l45 = pair(&leaf(4), &leaf(5));
    let l67 = pair(&leaf(6), &leaf(7));
    let root = pair(&pair(&l01, &l23), &pair(&l45, &l67));
    assert_eq!(head.leaf_count(), 8);
    assert_eq!(head.print_root(), hex::encode(root));
    assert_eq!(head.print_tree().len(), 15);
}

#[test]
fn hex_spelling_is_lowercase_two_digits_per_byte() {
    let mut head = Head::new();
    let mut c = [0u8; 32];
    c[0] = 0xab;
    c[1] = 0x0f;
    c[31] = 0xf0;
    head.append_leaf(c);
    let lines = head.print_tree();
    assert_eq!(lines[1].len(), 64);
    assert!(lines[1].starts_with("ab0f00"));
    assert!(lines[1].ends_with("00f0"));
}

#[test]
fn a_tree_of_n_leaves_prints_2n_minus_1_lines_and_the_root_last() {
    let mut head = Head::new();
    for n in 1..40u32 {
        let lines = head.print_tree();
        assert_eq!(lines.len() as u32, 2 * n - 1);
        assert_eq!(lines[lines.len() - 1], head.print_root());
        assert_eq!(head.leaf_count(), n);
        head.append_leaf(leaf(n as u8));
    }
}
