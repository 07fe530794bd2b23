//! Placing catalog translations into a script body: every `TEXT_RENDER`
//! instruction whose byte offset has a catalog message gets that message
//! as an annotation right after it.

use vstd::prelude::*;
use crate::catalog::CatalogMessage;
use std::collections::BTreeMap;

verus! {

/// The opcode of the instruction that shows the current text line.
pub const TEXT_RENDER: u32 = 0x841;

/// What placing translations needs to know of one item of a script body.
#[derive(Clone, Copy, Debug, PartialEq, Eq, Structural)]
pub enum ItemShape {
    /// An instruction: its opcode and the length in bytes of its arguments.
    Insn { opcode: u32, args_len: usize },
    /// Bytes carried through as they are.
    Raw { len: usize },
    /// An item that occupies no bytes, such as a label or an annotation.
    Other,
}

/// The number of bytes an item occupies in the assembled script: two for an
/// instruction's opcode plus its arguments, the length of raw bytes, and
/// nothing for anything else.
pub open spec fn item_size(item: ItemShape) -> nat {
    match item {
        ItemShape::Insn { args_len, .. } => (2 + args_len) as nat,
        ItemShape::Raw { len } => len as nat,
        ItemShape::Other => 0,
    }
}

/// The byte offset at which item `i` starts: the sizes of the items before it.
pub open spec fn offset_before(items: Seq<ItemShape>, i: int) -> nat
    decreases i,
{
    if i <= 0 || items.len() == 0 {
        0
    } else if i > items.len() {
        offset_before(items, items.len() as int)
    } else {
        offset_before(items, i - 1) + item_size(items[i - 1])
    }
}

/// The size of a whole body.
pub open spec fn body_size(items: Seq<ItemShape>) -> nat {
    offset_before(items, items.len() as int)
}

/// The item is a `TEXT_RENDER` instruction.
pub open spec fn renders_text(item: ItemShape) -> bool {
    item matches ItemShape::Insn { opcode, .. } && opcode == TEXT_RENDER
}

/// The catalog key under which item `i` is looked up: its offset, cut to 32 bits.
pub open spec fn lookup_key(items: Seq<ItemShape>, i: int) -> u32 {
    offset_before(items, i) as u32
}

/// Item `i` receives a translation.
pub open spec fn is_translated(items: Seq<ItemShape>, messages: Map<u32, CatalogMessage>, i: int) -> bool {
    renders_text(items[i]) && messages.contains_key(lookup_key(items, i))
}

/// The translation placed after item `i`, if any.
pub open spec fn placed_after(items: Seq<ItemShape>, messages: Map<u32, CatalogMessage>, i: int) -> Option<CatalogMessage> {
    if is_translated(items, messages, i) {
        Some(messages[lookup_key(items, i)])
    } else {
        None
    }
}

/// How many of the first `n` items receive a translation.
pub open spec fn translated_count(items: Seq<ItemShape>, messages: Map<u32, CatalogMessage>, n: int) -> nat
    decreases n,
{
    if n <= 0 {
        0
    } else if is_translated(items, messages, n - 1) {
        translated_count(items, messages, n - 1) + 1
    } else {
        translated_count(items, messages, n - 1)
    }
}

proof fn lemma_offset_monotone(items: Seq<ItemShape>, i: int, j: int)
    requires
        0 <= i <= j <= items.len(),
    ensures
        offset_before(items, i) <= offset_before(items, j),
    decreases j - i,
{
    if i < j {
        lemma_offset_monotone(items, i, j - 1);
    }
}

/// The catalog keys of the first `n` items that receive a translation.
pub open spec fn translated_keys(items: Seq<ItemShape>, messages: Map<u32, CatalogMessage>, n: int) -> Set<u32>
    decreases n,
{
    if n <= 0 {
        Set::empty()
    } else if is_translated(items, messages, n - 1) {
        translated_keys(items, messages, n - 1).insert(lookup_key(items, n - 1))
    } else {
        translated_keys(items, messages, n - 1)
    }
}

proof fn lemma_translated_keys(items: Seq<ItemShape>, messages: Map<u32, CatalogMessage>, n: int)
    requires
        0 <= n <= items.len(),
        body_size(items) <= u32::MAX,
    ensures
        translated_keys(items, messages, n).finite(),
        translated_keys(items, messages, n).len() == translated_count(items, messages, n),
        translated_keys(items, messages, n).subset_of(messages.dom()),
        forall|k: u32| translated_keys(items, messages, n).contains(k) ==> k < offset_before(items, n),
    decreases n,
{
    if n > 0 {
        lemma_translated_keys(items, messages, n - 1);
        lemma_offset_monotone(items, n, items.len() as int);
        let prev = translated_keys(items, messages, n - 1);
        let at = offset_before(items, n - 1);
        if is_translated(items, messages, n - 1) {
            assert(lookup_key(items, n - 1) == at);
            assert(!prev.contains(lookup_key(items, n - 1)));
        }
    }
}

/// In a body of at most `u32::MAX` bytes no two translated instructions
/// share a catalog key, so no more items receive a translation than the
/// catalog holds messages; the count of unmatched messages is then
/// the catalog size minus the translations placed.
pub proof fn translations_fit_catalog(items: Seq<ItemShape>, messages: Map<u32, CatalogMessage>)
    requires
        body_size(items) <= u32::MAX,
        messages.dom().finite(),
    ensures
        translated_count(items, messages, items.len() as int) <= messages.len(),
{
    lemma_translated_keys(items, messages, items.len() as int);
    vstd::set_lib::lemma_len_subset(translated_keys(items, messages, items.len() as int), messages.dom());
}

fn shape_size(item: ItemShape) -> (size: usize)
    requires
        item_size(item) <= usize::MAX,
    ensures
        size == item_size(item),
{
    match item {
        ItemShape::Insn { args_len, .. } => 2 + args_len,
        ItemShape::Raw { len } => len,
        ItemShape::Other => 0,
    }
}

/// Decides which translation follows each item of a script body, walking
/// the body once and keeping the byte offset of each item. A `TEXT_RENDER`
/// instruction at an offset that the catalog holds (the offset cut to 32
/// bits, as the catalog keys are) is followed by that message; every other
/// item is followed by nothing. Also returns how many items received one.
pub fn place_translations(items: &Vec<ItemShape>, messages: &BTreeMap<u32, CatalogMessage>) -> (res: (Vec<Option<CatalogMessage>>, usize))
    requires
        body_size(items@) <= usize::MAX,
    ensures
        res.0.len() == items.len(),
        forall|i: int| 0 <= i < items.len() ==> #[trigger] res.0@[i] == placed_after(items@, messages@, i),
        res.1 == translated_count(items@, messages@, items.len() as int),
{
    let mut placed: Vec<Option<CatalogMessage>> = Vec::new();
    let mut offset: usize = 0;
    let mut attached: usize = 0;
    let mut i: usize = 0;
    while i < items.len()
        invariant
            i <= items.len(),
            body_size(items@) <= usize::MAX,
            offset == offset_before(items@, i as int),
            placed.len() == i,
            attached == translated_count(items@, messages@, i as int),
            attached <= i,
            forall|j: int| 0 <= j < i ==> #[trigger] placed@[j] == placed_after(items@, messages@, j),
        decreases items.len() - i,
    {
        proof { lemma_offset_monotone(items@, i + 1, items.len() as int); }
        let item = items[i];
        let mut pending: Option<CatalogMessage> = None;
        if let ItemShape::Insn { opcode, .. } = item {
            if opcode == TEXT_RENDER {
                match messages.get(&(offset as u32)) {
                    Some(message) => {
                        pending = Some(message.duplicate());
                    },
                    None => {},
                }
            }
        }
        let size = shape_size(item);
        if pending.is_some() {
            attached = attached + 1;
        }
        placed.push(pending);
        offset = offset + size;
        i = i + 1;
    }
    (placed, attached)
}

/// The size of a body when it fits in a `usize`; the caller of
/// [`place_translations`] checks it first.
pub fn checked_body_size(items: &Vec<ItemShape>) -> (size: Option<usize>)
    ensures
        match size {
            Some(n) => n == body_size(items@),
            None => body_size(items@) > usize::MAX,
        },
{
    let mut total: usize = 0;
    let mut i: usize = 0;
    while i < items.len()
        invariant
            i <= items.len(),
            total == offset_before(items@, i as int),
        decreases items.len() - i,
    {
        proof { lemma_offset_monotone(items@, i + 1, items.len() as int); }
        let size: usize = match items[i] {
            ItemShape::Insn { args_len, .. } => {
                if args_len > usize::MAX - 2 {
                    return None;
                }
                2 + args_len
            },
            ItemShape::Raw { len } => len,
            ItemShape::Other => 0,
        };
        if total > usize::MAX - size {
            return None;
        }
        total = total + size;
        i = i + 1;
    }
    Some(total)
}

/// An item of a body after translations are placed: an original item, or a
/// translation that follows the item before it.
#[derive(Debug)]
pub enum Annotated<I> {
    Item(I),
    Translation(CatalogMessage),
}

/// The first `n` items of a body, each followed by the translation placed
/// after it, if any.
pub open spec fn interleaved<I>(items: Seq<I>, placed: Seq<Option<CatalogMessage>>, n: int) -> Seq<Annotated<I>>
    decreases n,
{
    if n <= 0 {
        Seq::empty()
    } else {
        let before = interleaved(items, placed, n - 1).push(Annotated::Item(items[n - 1]));
        match placed[n - 1] {
            Some(message) => before.push(Annotated::Translation(message)),
            None => before,
        }
    }
}

/// The original items of an annotated body, in order.
pub open spec fn originals<I>(body: Seq<Annotated<I>>) -> Seq<I>
    decreases body.len(),
{
    if body.len() == 0 {
        Seq::empty()
    } else {
        let rest = originals(body.drop_last());
        match body.last() {
            Annotated::Item(item) => rest.push(item),
            Annotated::Translation(_) => rest,
        }
    }
}

/// The translations of an annotated body, in order.
pub open spec fn translations<I>(body: Seq<Annotated<I>>) -> Seq<CatalogMessage>
    decreases body.len(),
{
    if body.len() == 0 {
        Seq::empty()
    } else {
        let rest = translations(body.drop_last());
        match body.last() {
            Annotated::Item(_) => rest,
            Annotated::Translation(message) => rest.push(message),
        }
    }
}

/// The translations placed after the first `n` items, in order.
pub open spec fn placed_messages(placed: Seq<Option<CatalogMessage>>, n: int) -> Seq<CatalogMessage>
    decreases n,
{
    if n <= 0 {
        Seq::empty()
    } else {
        match placed[n - 1] {
            Some(message) => placed_messages(placed, n - 1).push(message),
            None => placed_messages(placed, n - 1),
        }
    }
}

/// Builds the annotated body: every item in its place, each followed by
/// the translation placed after it.
pub fn annotate<I>(items: Vec<I>, placed: Vec<Option<CatalogMessage>>) -> (body: Vec<Annotated<I>>)
    requires
        items.len() == placed.len(),
    ensures
        body@ == interleaved(items@, placed@, items@.len() as int),
{
    let ghost all_items = items@;
    let ghost all_placed = placed@;
    let ghost n = items@.len() as int;
    let mut items = items;
    let mut placed = placed;
    let mut reversed: Vec<(I, Option<CatalogMessage>)> = Vec::new();
    while items.len() > 0
        invariant
            items.len() == placed.len(),
            items@ == all_items.take(items@.len() as int),
            placed@ == all_placed.take(placed@.len() as int),
            all_items.len() == n,
            all_placed.len() == n,
            reversed@.len() + items@.len() == n,
            forall|k: int| 0 <= k < reversed@.len() ==> #[trigger] reversed@[k] == (all_items[n - 1 - k], all_placed[n - 1 - k]),
        decreases items.len(),
    {
        let item = items.pop().unwrap();
        let message = placed.pop().unwrap();
        reversed.push((item, message));
        assert(items@ =~= all_items.take(items@.len() as int));
        assert(placed@ =~= all_placed.take(placed@.len() as int));
    }
    let mut body: Vec<Annotated<I>> = Vec::new();
    while reversed.len() > 0
        invariant
            all_items.len() == n,
            all_placed.len() == n,
            reversed@.len() <= n,
            forall|k: int| 0 <= k < reversed@.len() ==> #[trigger] reversed@[k] == (all_items[n - 1 - k], all_placed[n - 1 - k]),
            body@ == interleaved(all_items, all_placed, n - reversed@.len()),
        decreases reversed.len(),
    {
        let ghost j = n - reversed@.len();
        let (item, message) = reversed.pop().unwrap();
        assert(item == all_items[j] && message == all_placed[j]);
        body.push(Annotated::Item(item));
        match message {
            Some(m) => {
                body.push(Annotated::Translation(m));
            },
            None => {},
        }
    }
    body
}

/// Placing translations only inserts annotations: dropping them from the
/// annotated body gives back the original items, in order, and the
/// annotations are exactly the placed translations, in order.
pub proof fn annotating_keeps_items<I>(items: Seq<I>, placed: Seq<Option<CatalogMessage>>, n: int)
    requires
        0 <= n <= items.len(),
        n <= placed.len(),
    ensures
        originals(interleaved(items, placed, n)) == items.take(n),
        translations(interleaved(items, placed, n)) == placed_messages(placed, n),
    decreases n,
{
    if n > 0 {
        annotating_keeps_items(items, placed, n - 1);
        let prev = interleaved(items, placed, n - 1);
        let before = prev.push(Annotated::Item(items[n - 1]));
        assert(before.drop_last() =~= prev);
        assert(before.last() == Annotated::<I>::Item(items[n - 1]));
        assert(originals(before) == originals(prev).push(items[n - 1]));
        assert(translations(before) == translations(prev));
        match placed[n - 1] {
            Some(message) => {
                let after = before.push(Annotated::Translation(message));
                assert(after.drop_last() =~= before);
                assert(originals(after) == originals(before));
                assert(translations(after) == translations(before).push(message));
            },
            None => {},
        }
        assert(items.take(n) =~= items.take(n - 1).push(items[n - 1]));
    } else {
        assert(items.take(0) =~= Seq::<I>::empty());
    }
}

} // verus!
