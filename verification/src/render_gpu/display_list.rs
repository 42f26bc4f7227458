//! Display lists.

use vstd::prelude::*;

verus! {

/// Something to draw. `N` is the type of a coordinate.
#[derive(Debug)]
pub enum DisplayItem<N> {
    Rect { x: N, y: N, width: N, height: N, color: [u8; 4] },
    Text { x: N, y: N, text: String, font_size: N, color: [u8; 4] },
    Image { x: N, y: N, width: N, height: N, data: Vec<u8> },
    Clip { x: N, y: N, width: N, height: N, items: Vec<DisplayItem<N>> },
    Transform { matrix: [N; 6], items: Vec<DisplayItem<N>> },
    Opacity { opacity: N, items: Vec<DisplayItem<N>> },
}

/// What an item says.
pub enum ItemView<N> {
    Rect { x: N, y: N, width: N, height: N, color: [u8; 4] },
    Text { x: N, y: N, text: Seq<char>, font_size: N, color: [u8; 4] },
    Image { x: N, y: N, width: N, height: N, data: Seq<u8> },
    Clip { x: N, y: N, width: N, height: N, items: Seq<ItemView<N>> },
    Transform { matrix: [N; 6], items: Seq<ItemView<N>> },
    Opacity { opacity: N, items: Seq<ItemView<N>> },
}

/// What an item says, and all that it holds.
pub open spec fn item_view<N>(item: DisplayItem<N>) -> ItemView<N>
    decreases item, 1int,
{
    match item {
        DisplayItem::Rect { x, y, width, height, color } => ItemView::Rect {
            x,
            y,
            width,
            height,
            color,
        },
        DisplayItem::Text { x, y, text, font_size, color } => ItemView::Text {
            x,
            y,
            text: text@,
            font_size,
            color,
        },
        DisplayItem::Image { x, y, width, height, data } => ItemView::Image {
            x,
            y,
            width,
            height,
            data: data@,
        },
        DisplayItem::Clip { x, y, width, height, items } => ItemView::Clip {
            x,
            y,
            width,
            height,
            items: items_view(items@),
        },
        DisplayItem::Transform { matrix, items } => ItemView::Transform {
            matrix,
            items: items_view(items@),
        },
        DisplayItem::Opacity { opacity, items } => ItemView::Opacity {
            opacity,
            items: items_view(items@),
        },
    }
}

/// What a list of items says.
pub open spec fn items_view<N>(items: Seq<DisplayItem<N>>) -> Seq<ItemView<N>>
    decreases items, 0int,
{
    Seq::new(
        items.len(),
        |i: int|
            if 0 <= i < items.len() {
                item_view(items[i])
            } else {
                arbitrary()
            },
    )
}

/// A copy of an item.
fn copy_item<N: Copy>(item: &DisplayItem<N>) -> (r: DisplayItem<N>)
    ensures
        item_view(r) == item_view(*item),
    decreases item, 1int,
{
    match item {
        DisplayItem::Rect { x, y, width, height, color } => DisplayItem::Rect {
            x: *x,
            y: *y,
            width: *width,
            height: *height,
            color: *color,
        },
        DisplayItem::Text { x, y, text, font_size, color } => DisplayItem::Text {
            x: *x,
            y: *y,
            text: text.clone(),
            font_size: *font_size,
            color: *color,
        },
        DisplayItem::Image { x, y, width, height, data } => {
            let copied = data.clone();
            assert(copied@ =~= data@);
            DisplayItem::Image { x: *x, y: *y, width: *width, height: *height, data: copied }
        },
        DisplayItem::Clip { x, y, width, height, items } => DisplayItem::Clip {
            x: *x,
            y: *y,
            width: *width,
            height: *height,
            items: copy_items(items),
        },
        DisplayItem::Transform { matrix, items } => DisplayItem::Transform {
            matrix: *matrix,
            items: copy_items(items),
        },
        DisplayItem::Opacity { opacity, items } => DisplayItem::Opacity {
            opacity: *opacity,
            items: copy_items(items),
        },
    }
}

/// A copy of a list of items.
fn copy_items<N: Copy>(items: &Vec<DisplayItem<N>>) -> (r: Vec<DisplayItem<N>>)
    ensures
        items_view(r@) == items_view(items@),
    decreases items, 0int,
{
    let mut out: Vec<DisplayItem<N>> = Vec::new();
    let mut i: usize = 0;
    while i < items.len()
        invariant
            i <= items@.len(),
            out@.len() == i,
            forall|j: int| 0 <= j < i ==> item_view(#[trigger] out@[j]) == item_view(items@[j]),
        decreases items@.len() - i,
    {
        out.push(copy_item(&items[i]));
        i += 1;
    }
    assert(items_view(out@) =~= items_view(items@));
    out
}

impl<N: Copy> Clone for DisplayItem<N> {
    fn clone(&self) -> (r: DisplayItem<N>)
        ensures
            item_view(r) == item_view(*self),
    {
        copy_item(self)
    }
}

/// Collects items in the order in which they are drawn.
pub struct DisplayListBuilder<N> {
    items: Vec<DisplayItem<N>>,
}

impl<N: Copy> View for DisplayListBuilder<N> {
    type V = Seq<ItemView<N>>;

    closed spec fn view(&self) -> Seq<ItemView<N>> {
        items_view(self.items@)
    }
}

impl<N: Copy> DisplayListBuilder<N> {
    pub fn new() -> (r: DisplayListBuilder<N>)
        ensures
            r@ == Seq::<ItemView<N>>::empty(),
    {
        let b = DisplayListBuilder { items: Vec::new() };
        assert(b@ =~= Seq::<ItemView<N>>::empty());
        b
    }

    pub fn push_rect(&mut self, x: N, y: N, w: N, h: N, color: [u8; 4])
        ensures
            final(self)@ == old(self)@.push(ItemView::Rect { x, y, width: w, height: h, color }),
    {
        self.items.push(DisplayItem::Rect { x, y, width: w, height: h, color });
        assert(self@ =~= old(self)@.push(ItemView::Rect { x, y, width: w, height: h, color }));
    }

    pub fn push_text(&mut self, x: N, y: N, text: &str, size: N, color: [u8; 4])
        ensures
            final(self)@ == old(self)@.push(
                ItemView::Text { x, y, text: text@, font_size: size, color },
            ),
    {
        self.items.push(
            DisplayItem::Text { x, y, text: text.to_string(), font_size: size, color },
        );
        assert(self@ =~= old(self)@.push(
            ItemView::Text { x, y, text: text@, font_size: size, color },
        ));
    }

    /// The items so far. The builder keeps them.
    pub fn build(&self) -> (r: Vec<DisplayItem<N>>)
        ensures
            items_view(r@) == self@,
    {
        copy_items(&self.items)
    }
}

/// What an item says is what it was made of: its place, its size, its colour, its text or
/// its bytes, and the items that it holds.
pub proof fn law_items_say_what_they_hold<N>(
    x: N,
    y: N,
    width: N,
    height: N,
    color: [u8; 4],
    text: String,
    data: Vec<u8>,
    matrix: [N; 6],
    items: Vec<DisplayItem<N>>,
)
    ensures
        item_view(DisplayItem::Rect { x, y, width, height, color }) == (ItemView::Rect {
            x,
            y,
            width,
            height,
            color,
        }),
        item_view(DisplayItem::Text { x, y, text, font_size: width, color }) == (ItemView::Text {
            x,
            y,
            text: text@,
            font_size: width,
            color,
        }),
        item_view(DisplayItem::Image { x, y, width, height, data }) == (ItemView::Image {
            x,
            y,
            width,
            height,
            data: data@,
        }),
        item_view(DisplayItem::Clip { x, y, width, height, items }) == (ItemView::Clip {
            x,
            y,
            width,
            height,
            items: items_view(items@),
        }),
        item_view(DisplayItem::Transform { matrix, items }) == (ItemView::Transform {
            matrix,
            items: items_view(items@),
        }),
        item_view(DisplayItem::Opacity { opacity: x, items }) == (ItemView::Opacity {
            opacity: x,
            items: items_view(items@),
        }),
{
}

/// A list says what its items say, in their order.
pub proof fn law_lists_say_what_their_items_say<N>(items: Seq<DisplayItem<N>>, i: int)
    requires
        0 <= i < items.len(),
    ensures
        items_view(items).len() == items.len(),
        items_view(items)[i] == item_view(items[i]),
        items_view(Seq::<DisplayItem<N>>::empty()).len() == 0,
{
}

} // verus!
