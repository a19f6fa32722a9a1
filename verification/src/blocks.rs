use vstd::prelude::*;
use crate::collect::{lemma_filter_ends, lemma_filter_next};
use crate::error::ReadFault;
use crate::layout::{fits, lemma_uint_at_one, uint_at};
use crate::read_traits::ReadExt;
use crate::reader::ByteReader;
use crate::session::{lemma_block_children, views, Block, BlockView};

verus! {

/// The byte that every block begins with.
pub const Z_MARK: u8 = 0x5a;

/// Number of bytes between the start of a block and the start of its payload.
pub const BLOCK_HEADER_LEN: usize = 7;

/// Position of the first top-level block.
pub const FIRST_BLOCK: usize = 0x14;

/// The block that begins at `pos` and has to end at or before `max`.
///
/// A block is the sentinel byte, a 16-bit type whose upper byte is zero, a 32-bit payload
/// size, and the payload, which opens with the 16-bit content type. Its children are the
/// blocks found by trying every position of the payload from the second byte on.
pub open spec fn block_at(buf: Seq<u8>, big: bool, pos: int, max: int) -> Result<
    BlockView,
    ReadFault,
>
    decreases max - pos, 1int, 0int,
{
    if !fits(buf, pos, 1) {
        Err(ReadFault::UnexpectedEof)
    } else if buf[pos] != Z_MARK {
        Err(ReadFault::InvalidMark)
    } else {
        match (uint_at(buf, big, pos + 1, 2), uint_at(buf, big, pos + 3, 4), uint_at(
            buf,
            big,
            pos + 7,
            2,
        )) {
            (Some(block_type), Some(size), Some(content_type)) => {
                if block_type >= 0x100 {
                    Err(ReadFault::InvalidBlockType)
                } else if pos + 7 + size > max {
                    Err(ReadFault::BlockTooLarge)
                } else {
                    Ok(
                        BlockView {
                            z_mark: Z_MARK,
                            block_type: block_type as u16,
                            size,
                            content_type: content_type as u16,
                            offset: (pos + 7) as nat,
                            children: children_from(buf, big, pos, size, 1),
                        },
                    )
                }
            },
            _ => Err(ReadFault::UnexpectedEof),
        }
    }
}

/// How many positions of a payload of `size` bytes are left to try from byte `i` on.
pub open spec fn left(size: nat, i: int) -> nat {
    if i < size {
        (size - i) as nat
    } else {
        0
    }
}

/// The children of the block at `pos` with payload size `size` that begin at or after
/// byte `i` of the block: a position where a block is found yields a child and the search
/// goes on behind that child; any other position is passed over by one byte.
pub open spec fn children_from(buf: Seq<u8>, big: bool, pos: int, size: nat, i: int) -> Seq<
    BlockView,
>
    decreases size + 7, 0int, left(size, i),
{
    if 1 <= i < size {
        match block_at(buf, big, pos + i, pos + 7 + size) {
            Ok(child) => seq![child] + children_from(buf, big, pos, size, i + child.size + 7),
            Err(_) => children_from(buf, big, pos, size, i + 1),
        }
    } else {
        Seq::empty()
    }
}

/// The top-level blocks from position `i` on: one block behind the other, up to the end of
/// the buffer or to the first position at which no block is found. A block without
/// payload is passed over by a single byte.
pub open spec fn top_blocks_from(buf: Seq<u8>, big: bool, i: int) -> Seq<BlockView>
    decreases buf.len() - i,
{
    if 0 <= i < buf.len() {
        match block_at(buf, big, i, buf.len() as int) {
            Ok(block) => seq![block] + top_blocks_from(
                buf,
                big,
                i + if block.size > 0 {
                    block.size + 7
                } else {
                    1
                },
            ),
            Err(_) => Seq::empty(),
        }
    } else {
        Seq::empty()
    }
}

/// The top-level blocks of a decrypted session file.
pub open spec fn top_blocks(buf: Seq<u8>, big: bool) -> Seq<BlockView> {
    top_blocks_from(buf, big, FIRST_BLOCK as int)
}

/// The blocks whose content type is `a` or `b`, in their order.
pub open spec fn tagged(blocks: Seq<BlockView>, a: u16, b: u16) -> Seq<BlockView> {
    blocks.filter(|block: BlockView| block.content_type == a || block.content_type == b)
}

/// Looking at one block more appends that block if it carries one of the tags.
pub proof fn lemma_tagged_next(blocks: Seq<BlockView>, a: u16, b: u16, j: int)
    requires
        0 <= j < blocks.len(),
    ensures
        tagged(blocks.take(j + 1), a, b) == if blocks[j].content_type == a
            || blocks[j].content_type == b {
            tagged(blocks.take(j), a, b).push(blocks[j])
        } else {
            tagged(blocks.take(j), a, b)
        },
{
    lemma_filter_next(
        blocks,
        |block: BlockView| block.content_type == a || block.content_type == b,
        j,
    );
}

/// Of no blocks none is tagged, and the blocks tagged among all are the tagged blocks.
pub proof fn lemma_tagged_ends(blocks: Seq<BlockView>, a: u16, b: u16)
    ensures
        tagged(blocks.take(0), a, b) == Seq::<BlockView>::empty(),
        tagged(blocks.take(blocks.len() as int), a, b) == tagged(blocks, a, b),
{
    lemma_filter_ends(
        blocks,
        |block: BlockView| block.content_type == a || block.content_type == b,
    );
}

/// Whether a block and all blocks below it begin with the sentinel, have a type whose
/// upper byte is zero, and end at or before the bound that their parent sets.
pub open spec fn block_sound(block: BlockView, bound: int) -> bool
    decreases block,
{
    &&& block.z_mark == Z_MARK
    &&& block.block_type & 0xff00 == 0
    &&& block.offset + block.size <= bound
    &&& forall|i: int|
        0 <= i < block.children.len() ==> block_sound(
            #[trigger] block.children[i],
            (block.offset + block.size) as int,
        )
}

/// Whether each of the blocks, with all blocks below it, is sound within `bound`.
pub open spec fn blocks_sound(blocks: Seq<BlockView>, bound: int) -> bool {
    forall|k: int| 0 <= k < blocks.len() ==> block_sound(#[trigger] blocks[k], bound)
}

/// The blocks picked out by their tags are sound if the blocks they are picked from are.
pub proof fn lemma_tagged_sound(blocks: Seq<BlockView>, a: u16, b: u16, bound: int)
    requires
        blocks_sound(blocks, bound),
    ensures
        blocks_sound(tagged(blocks, a, b), bound),
    decreases blocks.len(),
{
    reveal(Seq::filter);
    if blocks.len() > 0 {
        lemma_tagged_sound(blocks.drop_last(), a, b, bound);
    }
}

/// Every block that is found is sound within the bound it was looked for.
pub proof fn lemma_block_at_sound(buf: Seq<u8>, big: bool, pos: int, max: int)
    requires
        block_at(buf, big, pos, max) is Ok,
    ensures
        block_sound(block_at(buf, big, pos, max)->Ok_0, max),
    decreases max - pos, 1int, 0int,
{
    let block = block_at(buf, big, pos, max)->Ok_0;
    let block_type = block.block_type;
    assert(block_type < 0x100 ==> block_type & 0xff00 == 0) by (bit_vector);
    lemma_children_sound(buf, big, pos, block.size, 1);
    assert(block.children == children_from(buf, big, pos, block.size, 1));
}

/// Every child that is found is sound within the payload of its parent.
pub proof fn lemma_children_sound(buf: Seq<u8>, big: bool, pos: int, size: nat, i: int)
    ensures
        forall|k: int|
            0 <= k < children_from(buf, big, pos, size, i).len() ==> block_sound(
                #[trigger] children_from(buf, big, pos, size, i)[k],
                pos + 7 + size,
            ),
    decreases size + 7, 0int, left(size, i),
{
    if 1 <= i < size {
        match block_at(buf, big, pos + i, pos + 7 + size) {
            Ok(child) => {
                lemma_block_at_sound(buf, big, pos + i, pos + 7 + size);
                lemma_children_sound(buf, big, pos, size, i + child.size + 7);
                assert(children_from(buf, big, pos, size, i) == seq![child] + children_from(
                    buf,
                    big,
                    pos,
                    size,
                    i + child.size + 7,
                ));
            },
            Err(_) => {
                lemma_children_sound(buf, big, pos, size, i + 1);
                assert(children_from(buf, big, pos, size, i) == children_from(
                    buf,
                    big,
                    pos,
                    size,
                    i + 1,
                ));
            },
        }
    }
}

/// Every top-level block is sound within the buffer.
pub proof fn lemma_top_blocks_sound(buf: Seq<u8>, big: bool, i: int)
    ensures
        forall|k: int|
            0 <= k < top_blocks_from(buf, big, i).len() ==> block_sound(
                #[trigger] top_blocks_from(buf, big, i)[k],
                buf.len() as int,
            ),
    decreases buf.len() - i,
{
    if 0 <= i < buf.len() {
        match block_at(buf, big, i, buf.len() as int) {
            Ok(block) => {
                lemma_block_at_sound(buf, big, i, buf.len() as int);
                let next = i + if block.size > 0 {
                    block.size + 7
                } else {
                    1
                };
                lemma_top_blocks_sound(buf, big, next);
                assert(top_blocks_from(buf, big, i) == seq![block] + top_blocks_from(
                    buf,
                    big,
                    next,
                ));
            },
            Err(_) => {},
        }
    }
}

/// Behind the end of the buffer no child is found.
proof fn lemma_no_children_beyond(buf: Seq<u8>, big: bool, pos: int, size: nat, i: int)
    requires
        pos + i >= buf.len(),
    ensures
        children_from(buf, big, pos, size, i) == Seq::<BlockView>::empty(),
    decreases left(size, i),
{
    if 1 <= i < size {
        lemma_no_children_beyond(buf, big, pos, size, i + 1);
        assert(block_at(buf, big, pos + i, pos + 7 + size) is Err);
    }
}

/// Finds the block at `pos` that ends at or before `max`, with all blocks inside it.
///
/// The bound is wider than a position in memory: a parent may name an end that no
/// buffer reaches, and a block that stays within it is still a block.
pub fn block_within(data: &[u8], big: bool, pos: usize, max: u128) -> (r: Result<
    Block,
    ReadFault,
>)
    ensures
        match r {
            Ok(block) => block_at(data@, big, pos as int, max as int) == Ok::<
                BlockView,
                ReadFault,
            >(block@),
            Err(e) => block_at(data@, big, pos as int, max as int) == Err::<BlockView, ReadFault>(
                e,
            ),
        },
        r matches Ok(block) ==> block_sound(block@, max as int),
    decreases max - pos,
{
    let len = data.len();
    let mut reader = ByteReader::new(data, big);
    reader.set_position(pos);
    proof {
        if fits(data@, pos as int, 1) {
            lemma_uint_at_one(data@, big, pos as int);
        }
    }
    let z_mark = reader.read_u8()?;
    if z_mark != Z_MARK {
        return Err(ReadFault::InvalidMark);
    }
    let block_type = reader.read_u16()?;
    let size = reader.read_u32()? as usize;
    let content_type = reader.read_u16()?;
    if block_type >= 0x100 {
        return Err(ReadFault::InvalidBlockType);
    }
    let end: u128 = pos as u128 + 7 + size as u128;
    if end > max {
        return Err(ReadFault::BlockTooLarge);
    }
    let room = len - pos;
    let mut children: Vec<Block> = Vec::new();
    let mut i: usize = 1;
    while i < size && i < room
        invariant
            1 <= i,
            len == data@.len(),
            pos + room == len,
            end == pos + 7 + size,
            end <= max,
            views(children@) + children_from(data@, big, pos as int, size as nat, i as int)
                == children_from(data@, big, pos as int, size as nat, 1),
        decreases size - i,
    {
        match block_within(data, big, pos + i, end) {
            Ok(child) => {
                proof {
                    assert(children_from(data@, big, pos as int, size as nat, i as int)
                        == seq![child@] + children_from(
                        data@,
                        big,
                        pos as int,
                        size as nat,
                        i + child.size + 7,
                    ));
                }
                let behind = i + child.size;
                i = if size - behind <= 7 {
                    size
                } else {
                    behind + 7
                };
                children.push(child);
            },
            Err(_) => {
                i = i + 1;
            },
        }
    }
    proof {
        if i < size {
            lemma_no_children_beyond(data@, big, pos as int, size as nat, i as int);
        }
    }
    let block = Block { z_mark, block_type, size, content_type, offset: pos + 7, children };
    proof {
        lemma_block_children(block);
        lemma_block_at_sound(data@, big, pos as int, max as int);
    }
    Ok(block)
}

} // verus!
