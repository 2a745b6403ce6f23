use vstd::prelude::*;
use crate::layer::{draw_layer, laid_over, layer_over, views_of, Layer, LayerView};
use crate::pixels::{
    byte_len,
    filled,
    lemma_pixel_index_bound,
    lemma_pixel_position,
    pixel_index,
    pixel_of,
};

verus! {

/// The colour of the scene pixel `(x, y)` after the layers of the sprites in
/// `order` were laid over the background, the first of them first. Layer
/// number `id` is that of sprite `id`; a sprite without a layer adds nothing.
pub open spec fn composite_pixel(
    background: Seq<u8>,
    order: Seq<u32>,
    layers: Seq<LayerView>,
    x: int,
    y: int,
) -> Seq<u8>
    decreases order.len(),
{
    if order.len() == 0 {
        background
    } else {
        let below = composite_pixel(background, order.drop_last(), layers, x, y);
        let id = order.last();
        if id < layers.len() {
            layer_over(below, layers[id as int], x, y)
        } else {
            below
        }
    }
}

/// The frame of a `width` by `height` scene: every pixel is the composite of
/// the background and the layers at that pixel.
pub open spec fn frame(
    background: Seq<u8>,
    width: u32,
    height: u32,
    order: Seq<u32>,
    layers: Seq<LayerView>,
) -> Seq<u8> {
    Seq::new(
        byte_len(width as int, height as int) as nat,
        |j: int|
            composite_pixel(
                background,
                order,
                layers,
                (j / 4) % (width as int),
                (j / 4) / (width as int),
            )[j % 4],
    )
}

/// The frame has four bytes for each pixel of the scene.
pub proof fn lemma_frame_len(
    background: Seq<u8>,
    width: u32,
    height: u32,
    order: Seq<u32>,
    layers: Seq<LayerView>,
)
    ensures
        frame(background, width, height, order, layers).len() == byte_len(
            width as int,
            height as int,
        ),
{
    assert(0 <= byte_len(width as int, height as int)) by (nonlinear_arith)
        requires
            0 <= width,
            0 <= height,
    ;
}

/// Whether every pixel of a `width` by `height` bitmap is the composite of
/// the background and the layers at that pixel.
pub open spec fn shows(
    buf: Seq<u8>,
    background: Seq<u8>,
    width: u32,
    height: u32,
    order: Seq<u32>,
    layers: Seq<LayerView>,
) -> bool {
    &&& buf.len() == byte_len(width as int, height as int)
    &&& forall|x: int, y: int|
        0 <= x < width && 0 <= y < height ==> #[trigger] pixel_of(
            buf,
            pixel_index(width as int, x, y),
        ) == composite_pixel(background, order, layers, x, y)
}

/// A composite of four-byte pixels has four bytes.
pub proof fn lemma_composite_len(
    background: Seq<u8>,
    order: Seq<u32>,
    layers: Seq<LayerView>,
    x: int,
    y: int,
)
    requires
        background.len() == 4,
    ensures
        composite_pixel(background, order, layers, x, y).len() == 4,
    decreases order.len(),
{
    if order.len() > 0 {
        lemma_composite_len(background, order.drop_last(), layers, x, y);
    }
}

/// Only the frame shows the composites: a bitmap whose every pixel is the
/// composite at that pixel is the frame.
pub proof fn lemma_shows_is_frame(
    buf: Seq<u8>,
    background: Seq<u8>,
    width: u32,
    height: u32,
    order: Seq<u32>,
    layers: Seq<LayerView>,
)
    requires
        shows(buf, background, width, height, order, layers),
    ensures
        buf == frame(background, width, height, order, layers),
{
    let goal = frame(background, width, height, order, layers);
    assert forall|j: int| 0 <= j < buf.len() implies buf[j] == goal[j] by {
        let i = j / 4;
        let w = width as int;
        assert(width > 0) by {
            if width == 0 {
                assert(width as int * height as int * 4 == 0) by (nonlinear_arith)
                    requires
                        width == 0,
                ;
            }
        }
        lemma_pixel_position(w, i);
        let x = i % w;
        let y = i / w;
        assert(y < height) by {
            if y >= height {
                assert(y * w + x >= height as int * w) by (nonlinear_arith)
                    requires
                        y >= height,
                        x >= 0,
                        w > 0,
                ;
                assert(height as int * w * 4 == w * height as int * 4) by (nonlinear_arith);
            }
        }
        assert(pixel_of(buf, pixel_index(w, x, y)) == composite_pixel(
            background,
            order,
            layers,
            x,
            y,
        ));
        assert(pixel_of(buf, i)[j % 4] == buf[j]);
    }
    assert(buf =~= goal);
}

/// The frame shows the composites, where the background has four bytes.
pub proof fn lemma_frame_shows(
    background: Seq<u8>,
    width: u32,
    height: u32,
    order: Seq<u32>,
    layers: Seq<LayerView>,
)
    requires
        background.len() == 4,
    ensures
        shows(
            frame(background, width, height, order, layers),
            background,
            width,
            height,
            order,
            layers,
        ),
{
    let goal = frame(background, width, height, order, layers);
    let w = width as int;
    assert forall|x: int, y: int| 0 <= x < width && 0 <= y < height implies #[trigger] pixel_of(
        goal,
        pixel_index(w, x, y),
    ) == composite_pixel(background, order, layers, x, y) by {
        let i = pixel_index(w, x, y);
        lemma_pixel_index_bound(w, height as int, x, y);
        lemma_pixel_position(w, i);
        crate::pixels::lemma_pixel_index_injective(w, i % w, i / w, x, y);
        lemma_composite_len(background, order, layers, x, y);
        let want = composite_pixel(background, order, layers, x, y);
        assert forall|c: int| 0 <= c < 4 implies pixel_of(goal, i)[c] == want[c] by {
            let j = 4 * i + c;
            assert(j / 4 == i && j % 4 == c);
            assert(pixel_of(goal, i)[c] == goal[j]);
        }
        assert(pixel_of(goal, i) =~= want);
    }
}

/// A bitmap filled with the background shows the frame without sprites.
pub proof fn lemma_background_shows(
    background: Seq<u8>,
    width: u32,
    height: u32,
    layers: Seq<LayerView>,
)
    requires
        background.len() == 4,
    ensures
        shows(
            filled(background, width as int * height as int),
            background,
            width,
            height,
            Seq::empty(),
            layers,
        ),
{
    let buf = filled(background, width as int * height as int);
    let w = width as int;
    assert(buf.len() == byte_len(w, height as int)) by (nonlinear_arith)
        requires
            buf.len() == 4 * (w * height as int),
            0 <= w,
            0 <= height,
    ;
    assert forall|x: int, y: int| 0 <= x < width && 0 <= y < height implies #[trigger] pixel_of(
        buf,
        pixel_index(w, x, y),
    ) == composite_pixel(background, Seq::empty(), layers, x, y) by {
        let i = pixel_index(w, x, y);
        lemma_pixel_index_bound(w, height as int, x, y);
        assert forall|c: int| 0 <= c < 4 implies pixel_of(buf, i)[c] == background[c] by {
            assert((4 * i + c) % 4 == c);
        }
        assert(pixel_of(buf, i) =~= background);
    }
}

/// Whether `now` is the bitmap `before` with the layers of the sprites in
/// `order` laid over it, the first of them first.
pub open spec fn composed(
    before: Seq<u8>,
    now: Seq<u8>,
    width: u32,
    height: u32,
    order: Seq<u32>,
    layers: Seq<LayerView>,
) -> bool {
    &&& now.len() == before.len()
    &&& forall|x: int, y: int|
        0 <= x < width && 0 <= y < height ==> #[trigger] pixel_of(
            now,
            pixel_index(width as int, x, y),
        ) == composite_pixel(
            pixel_of(before, pixel_index(width as int, x, y)),
            order,
            layers,
            x,
            y,
        )
}

/// Laying the layer of the next sprite over a bitmap that holds the first
/// `k` layers of an order gives one that holds the first `k + 1`.
pub proof fn lemma_composed_step(
    start: Seq<u8>,
    before: Seq<u8>,
    now: Seq<u8>,
    width: u32,
    height: u32,
    order: Seq<u32>,
    layers: Seq<LayerView>,
    k: int,
)
    requires
        0 <= k < order.len(),
        composed(start, before, width, height, order.take(k), layers),
        if order[k] < layers.len() {
            laid_over(before, now, width, height, layers[order[k] as int])
        } else {
            now == before
        },
    ensures
        composed(start, now, width, height, order.take(k + 1), layers),
{
    let w = width as int;
    assert(order.take(k + 1).drop_last() =~= order.take(k));
    assert(order.take(k + 1).last() == order[k]);
    assert forall|x: int, y: int| 0 <= x < width && 0 <= y < height implies #[trigger] pixel_of(
        now,
        pixel_index(w, x, y),
    ) == composite_pixel(
        pixel_of(start, pixel_index(w, x, y)),
        order.take(k + 1),
        layers,
        x,
        y,
    ) by {
        assert(pixel_of(before, pixel_index(w, x, y)) == composite_pixel(
            pixel_of(start, pixel_index(w, x, y)),
            order.take(k),
            layers,
            x,
            y,
        ));
    }
}

/// Layers laid over a bitmap that is filled with the background give the
/// frame.
pub proof fn lemma_composed_is_frame(
    now: Seq<u8>,
    background: Seq<u8>,
    width: u32,
    height: u32,
    order: Seq<u32>,
    layers: Seq<LayerView>,
)
    requires
        background.len() == 4,
        composed(
            filled(background, width as int * height as int),
            now,
            width,
            height,
            order,
            layers,
        ),
    ensures
        now == frame(background, width, height, order, layers),
{
    let w = width as int;
    let start = filled(background, w * height as int);
    lemma_background_shows(background, width, height, layers);
    assert forall|x: int, y: int| 0 <= x < width && 0 <= y < height implies #[trigger] pixel_of(
        now,
        pixel_index(w, x, y),
    ) == composite_pixel(background, order, layers, x, y) by {
        assert(pixel_of(start, pixel_index(w, x, y)) == composite_pixel(
            background,
            Seq::empty(),
            layers,
            x,
            y,
        ));
    }
    lemma_shows_is_frame(now, background, width, height, order, layers);
}

/// Lays the layers of the sprites in `order` over a `width` by `height`
/// bitmap, the first of them first. Layer number `id` is that of sprite
/// `id`; a sprite without a layer is passed over.
pub fn draw_layers(
    buf: &mut Vec<u8>,
    width: u32,
    height: u32,
    order: &Vec<u32>,
    layers: &Vec<Layer>,
)
    requires
        old(buf)@.len() == byte_len(width as int, height as int),
    ensures
        composed(old(buf)@, final(buf)@, width, height, order@, views_of(layers@)),
{
    let mut k: usize = 0;
    proof {
        assert(order@.take(0) =~= Seq::<u32>::empty());
    }
    while k < order.len()
        invariant
            k <= order.len(),
            buf@.len() == byte_len(width as int, height as int),
            composed(old(buf)@, buf@, width, height, order@.take(k as int), views_of(layers@)),
        decreases order.len() - k,
    {
        let ghost before = buf@;
        let sprite: usize = order[k] as usize;
        if sprite < layers.len() {
            draw_layer(buf, width, height, &layers[sprite]);
        }
        proof {
            lemma_composed_step(
                old(buf)@,
                before,
                buf@,
                width,
                height,
                order@,
                views_of(layers@),
                k as int,
            );
        }
        k += 1;
    }
    proof {
        assert(order@.take(order@.len() as int) =~= order@);
    }
}

} // verus!
