//! Word buffers as the bytes a GPU upload takes.

use vstd::prelude::*;
use crate::svo::SvoNode;

verus! {

/// The four bytes of `w`, least significant first.
pub open spec fn le_bytes(w: u32) -> Seq<u8> {
    seq![
        (w % 0x100) as u8,
        ((w / 0x100) % 0x100) as u8,
        ((w / 0x1_0000) % 0x100) as u8,
        (w / 0x100_0000) as u8,
    ]
}

/// The four bytes of `w`, most significant first.
pub open spec fn be_bytes(w: u32) -> Seq<u8> {
    seq![
        (w / 0x100_0000) as u8,
        ((w / 0x1_0000) % 0x100) as u8,
        ((w / 0x100) % 0x100) as u8,
        (w % 0x100) as u8,
    ]
}

/// The bytes of `words`, each word little-endian.
pub open spec fn words_le(words: Seq<u32>) -> Seq<u8>
    decreases words.len(),
{
    if words.len() == 0 {
        Seq::empty()
    } else {
        words_le(words.drop_last()) + le_bytes(words.last())
    }
}

/// The bytes of `words`, each word big-endian.
pub open spec fn words_be(words: Seq<u32>) -> Seq<u8>
    decreases words.len(),
{
    if words.len() == 0 {
        Seq::empty()
    } else {
        words_be(words.drop_last()) + be_bytes(words.last())
    }
}

/// The bytes of `words` in the byte order of some machine: all little-endian
/// or all big-endian.
pub open spec fn native_bytes(words: Seq<u32>, bytes: Seq<u8>) -> bool {
    bytes == words_le(words) || bytes == words_be(words)
}

/// Four bytes per word, in either byte order.
pub proof fn lemma_words_bytes_len(words: Seq<u32>)
    ensures
        words_le(words).len() == 4 * words.len(),
        words_be(words).len() == 4 * words.len(),
    decreases words.len(),
{
    if words.len() > 0 {
        lemma_words_bytes_len(words.drop_last());
    }
}

/// `bytemuck::cast_slice::<u32, u8>`: the words' memory read as bytes. It
/// casts in place and never fails from `u32` to `u8`; the byte order is the
/// machine's, so all that is stated is that it is one of the two.
#[verifier::external_body]
fn cast_words(words: &[u32]) -> (bytes: Vec<u8>)
    ensures
        native_bytes(words@, bytes@),
{
    bytemuck::cast_slice::<u32, u8>(words).to_vec()
}

/// The bytes of a buffer of words, as uploaded to a GPU: four per word, in
/// the machine's byte order.
pub fn words_as_bytes(words: &Vec<u32>) -> (bytes: Vec<u8>)
    ensures
        native_bytes(words@, bytes@),
        bytes@.len() == 4 * words@.len(),
{
    let bytes = cast_words(words.as_slice());
    proof {
        lemma_words_bytes_len(words@);
    }
    bytes
}

/// The words of a node list: node `i`'s child `o` at position `8 * i + o`,
/// as a `#[repr(C)]` array of nodes lays them out.
pub fn node_words(nodes: &Vec<SvoNode>) -> (words: Vec<u32>)
    requires
        nodes@.len() * 8 <= usize::MAX,
    ensures
        words@.len() == 8 * nodes@.len(),
        forall|i: int| 0 <= i < words@.len() ==> #[trigger] words@[i] == nodes@[i / 8].children@[i % 8],
{
    let mut words: Vec<u32> = Vec::new();
    for i in 0..nodes.len()
        invariant
            words@.len() == 8 * i,
            i <= nodes@.len(),
            forall|j: int| 0 <= j < words@.len() ==> #[trigger] words@[j] == nodes@[j / 8].children@[j % 8],
    {
        let node = nodes[i];
        for o in 0..8usize
            invariant
                i < nodes@.len(),
                node == nodes@[i as int],
                words@.len() == 8 * i + o,
                forall|j: int| 0 <= j < words@.len() ==> #[trigger] words@[j] == nodes@[j / 8].children@[j % 8],
        {
            proof {
                vstd::arithmetic::div_mod::lemma_fundamental_div_mod_converse(
                    (8 * i + o) as int,
                    8,
                    i as int,
                    o as int,
                );
            }
            words.push(node.children[o]);
        }
    }
    words
}

/// The bytes of a node list, as uploaded to a GPU.
pub fn nodes_as_bytes(nodes: &Vec<SvoNode>) -> (bytes: Vec<u8>)
    requires
        nodes@.len() * 8 <= usize::MAX,
    ensures
        exists|words: Seq<u32>|
            {
                &&& words.len() == 8 * nodes@.len()
                &&& forall|i: int| 0 <= i < words.len() ==> #[trigger] words[i] == nodes@[i / 8].children@[i % 8]
                &&& native_bytes(words, bytes@)
            },
        bytes@.len() == 32 * nodes@.len(),
{
    let words = node_words(nodes);
    words_as_bytes(&words)
}

} // verus!
