#[test]
fn emit_block_test() {

}

#[test]
fn changes_test() {

}

#[test]
fn directory_traversal_test() {

}
