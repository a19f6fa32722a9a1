use ptsession::blocks::block_within;
use ptsession::error::ReadFault;
use ptsession::session::Block;

fn block(content_type: u16, body: &[u8]) -> Vec<u8> {
    let mut out = vec![0x5a, 0x02, 0x00];
    out.extend((2 + body.len() as u32).to_le_bytes());
    out.extend(content_type.to_le_bytes());
    out.extend_from_slice(body);
    out
}

fn leaf(content_type: u16, size: usize, offset: usize) -> Block {
    Block { z_mark: 0x5a, block_type: 2, size, content_type, offset, children: vec![] }
}

#[test]
fn block_without_children() {
    let data = block(0x1028, &[1, 2, 3, 4]);
    let found = block_within(&data, false, 0, data.len() as u128).unwrap();
    assert_eq!(found, leaf(0x1028, 6, 7));
    assert_eq!(found.offset + found.size, data.len());
}

#[test]
fn big_endian_block() {
    let data = [0xee, 0x5a, 0x00, 0x07, 0x00, 0x00, 0x00, 0x03, 0x10, 0x28, 0xaa];
    let found = block_within(&data, true, 1, data.len() as u128).unwrap();
    assert_eq!(
        found,
        Block {
            z_mark: 0x5a,
            block_type: 7,
            size: 3,
            content_type: 0x1028,
            offset: 8,
            children: vec![]
        }
    );
}

#[test]
fn children_are_found_behind_each_other_and_across_gaps() {
    let first = block(0x0001, &[9, 9]);
    let second = block(0x0002, &[]);
    let third = block(0x0003, &[8]);
    let mut body = vec![0xaa, 0xbb];
    body.extend(&first);
    body.extend(&second);
    body.extend([0xcc, 0xdd, 0xee]);
    body.extend(&third);
    body.push(0xff);
    let data = block(0x1004, &body);
    let found = block_within(&data, false, 0, data.len() as u128).unwrap();
    assert_eq!(found.size, body.len() + 2);
    assert_eq!(
        found.children,
        vec![leaf(0x0001, 4, 18), leaf(0x0002, 2, 29), leaf(0x0003, 3, 41)]
    );
}

#[test]
fn grandchildren_are_found() {
    let inner = block(0x1001, &[1]);
    let middle = block(0x1003, &inner);
    let data = block(0x1004, &middle);
    let found = block_within(&data, false, 0, data.len() as u128).unwrap();
    assert_eq!(found.children.len(), 1);
    assert_eq!(found.children[0].content_type, 0x1003);
    assert_eq!(found.children[0].children, vec![leaf(0x1001, 3, 25)]);
}

#[test]
fn child_that_leaves_its_parent_is_no_child() {
    // the inner block claims one byte more than the outer payload holds
    let mut inner = block(0x0001, &[1, 2]);
    inner[3] = 5;
    let mut data = block(0x1004, &inner);
    data.push(0x77);
    let found = block_within(&data, false, 0, data.len() as u128).unwrap();
    assert_eq!(found.children, vec![]);
    // one byte more in the outer payload, and it is a child
    data[3] += 1;
    let found = block_within(&data, false, 0, data.len() as u128).unwrap();
    assert_eq!(found.children, vec![leaf(0x0001, 5, 16)]);
}

#[test]
fn the_search_for_children_starts_at_the_second_byte() {
    // the payload size holds the sentinel: the bytes from the size on read as a block
    let mut data = vec![0x5a, 0x01, 0x00, 0x5a, 0x00, 0x00, 0x00, 0x00, 0x00, 0x00, 0x34, 0x12];
    data.resize(7 + 0x5a, 0);
    let found = block_within(&data, false, 0, data.len() as u128).unwrap();
    assert_eq!(found.size, 0x5a);
    assert_eq!(found.content_type, 0x0000);
    assert_eq!(
        found.children,
        vec![Block {
            z_mark: 0x5a,
            block_type: 0,
            size: 0,
            content_type: 0x1234,
            offset: 10,
            children: vec![]
        }]
    );
}

#[test]
fn wrong_first_byte_is_an_invalid_mark() {
    let mut data = block(0x1028, &[1, 2, 3, 4]);
    data[0] = 0x5b;
    assert_eq!(block_within(&data, false, 0, data.len() as u128), Err(ReadFault::InvalidMark));
    assert_eq!(block_within(&data, false, 1, data.len() as u128), Err(ReadFault::InvalidMark));
}

#[test]
fn type_with_upper_byte_is_invalid() {
    let mut data = block(0x1028, &[1, 2, 3, 4]);
    data[2] = 0x01;
    assert_eq!(block_within(&data, false, 0, data.len() as u128), Err(ReadFault::InvalidBlockType));
    data[1] = 0xff;
    data[2] = 0x00;
    assert!(block_within(&data, false, 0, data.len() as u128).is_ok());
}

#[test]
fn block_that_leaves_its_bound_is_too_large() {
    let data = block(0x1028, &[1, 2, 3, 4]);
    assert!(block_within(&data, false, 0, 13).is_ok());
    assert_eq!(block_within(&data, false, 0, 12), Err(ReadFault::BlockTooLarge));
    assert_eq!(block_within(&data, false, 0, 0), Err(ReadFault::BlockTooLarge));
    assert!(block_within(&data, false, 0, u128::MAX).is_ok());
}

#[test]
fn type_is_looked_at_before_the_size() {
    let mut data = block(0x1028, &[1, 2, 3, 4]);
    data[2] = 0x01;
    assert_eq!(block_within(&data, false, 0, 5), Err(ReadFault::InvalidBlockType));
}

#[test]
fn header_that_leaves_the_buffer_is_an_unexpected_end() {
    let data = block(0x1028, &[]);
    assert_eq!(data.len(), 9);
    assert!(block_within(&data, false, 0, 9).is_ok());
    assert_eq!(block_within(&data[..8], false, 0, 9), Err(ReadFault::UnexpectedEof));
    assert_eq!(block_within(&data[..1], false, 0, 9), Err(ReadFault::UnexpectedEof));
    assert_eq!(block_within(&data, false, 9, 100), Err(ReadFault::UnexpectedEof));
    assert_eq!(block_within(&data, false, usize::MAX, 100), Err(ReadFault::UnexpectedEof));
    assert_eq!(block_within(&[], false, 0, 0), Err(ReadFault::UnexpectedEof));
}

#[test]
fn payload_may_reach_past_the_buffer_if_the_bound_allows() {
    let mut data = block(0x1028, &[]);
    data[3] = 200;
    let found = block_within(&data, false, 0, 1000).unwrap();
    assert_eq!(found.size, 200);
    assert_eq!(found.children, vec![]);
    assert_eq!(block_within(&data, false, 0, data.len() as u128), Err(ReadFault::BlockTooLarge));
}

#[test]
fn block_of_size_zero() {
    let data = [0x5a, 0x00, 0x00, 0x00, 0x00, 0x00, 0x00, 0x34, 0x12];
    let found = block_within(&data, false, 0, 7).unwrap();
    assert_eq!(
        found,
        Block { z_mark: 0x5a, block_type: 0, size: 0, content_type: 0x1234, offset: 7, children: vec![] }
    );
}
