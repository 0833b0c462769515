//! Laws that relate several functions of the library.

use crate::canvas::{
    in_canvas, lemma_offset_pixel, paint, pixel, BUFFER_LEN, CHANNELS, HEIGHT, WIDTH,
};
use crate::codec::{
    all_valid, decode_all, decode_first, encode_all, record, record_count, record_height, record_tag,
    record_x, record_y, Action, ClientMessage, RECORD_LEN,
};
use crate::data::{loaded_canvas, open_count, still_open};
use crate::line::Segment;
use crate::shapes::{
    distance_squared, hexagon_edge, lemma_disc_in_box, lemma_triangle_shape, on_hexagon_edges,
    on_triangle_outline, rasterized, rasterized_all,
};
use vstd::prelude::*;

verus! {

/// Decoding the record of a valid command gives that command back, field by
/// field.
pub proof fn decode_inverts_encode(message: ClientMessage)
    requires
        message.valid(),
    ensures
        ClientMessage::spec_decode(message.spec_encode()) == Some(message),
{
    let bytes = message.spec_encode();
    let decoded = ClientMessage::spec_decode(bytes);
    assert(Action::from_tag(message.action.tag()) == Some(message.action));
    assert(record_tag(bytes) == message.action.tag());
    assert(record_height(bytes) == message.height);
    assert(record_x(bytes) == message.x);
    assert(record_y(bytes) == message.y);
    assert(decoded is Some);
    assert(decoded->0.color =~= message.color);
}

/// A record that can be decoded is the record of the command it stands for:
/// no two records stand for one command.
pub proof fn encode_inverts_decode(bytes: Seq<u8>)
    requires
        ClientMessage::spec_decode(bytes) is Some,
    ensures
        ClientMessage::spec_decode(bytes)->0.spec_encode() == bytes,
        ClientMessage::spec_decode(bytes)->0.valid(),
{
    let message = ClientMessage::spec_decode(bytes)->0;
    assert(message.action.tag() == record_tag(bytes));
    assert(message.spec_encode() =~= bytes);
}

/// A record is rejected exactly where it has the wrong length, where its tag
/// names no action, where its height is zero, or where its column or row is
/// off the canvas.
pub proof fn decode_rejects(bytes: Seq<u8>)
    ensures
        ClientMessage::spec_decode(bytes) is None <==> (bytes.len() != RECORD_LEN || record_tag(bytes)
            > 8 || record_height(bytes) == 0 || record_x(bytes) >= WIDTH || record_y(bytes)
            >= HEIGHT),
{
}

/// The records of a batch take `RECORD_LEN` bytes for each command.
pub proof fn encoded_length(batch: Seq<ClientMessage>)
    ensures
        encode_all(batch).len() == batch.len() * RECORD_LEN,
    decreases batch.len(),
{
    if batch.len() > 0 {
        encoded_length(batch.drop_last());
    }
}

/// The first records of a message stand for the same commands whatever
/// follows them.
proof fn lemma_decode_prefix(head: Seq<u8>, tail: Seq<u8>, n: nat)
    requires
        n * RECORD_LEN <= head.len(),
    ensures
        decode_first(head + tail, n) == decode_first(head, n),
    decreases n,
{
    if n > 0 {
        lemma_decode_prefix(head, tail, (n - 1) as nat);
        assert(record(head + tail, n - 1) =~= record(head, n - 1));
    }
}

/// Decoding the records of a batch of valid commands gives the batch back:
/// what a listener reads is what was written.
pub proof fn decode_all_inverts_encode_all(batch: Seq<ClientMessage>)
    requires
        all_valid(batch),
    ensures
        decode_all(encode_all(batch)) == batch,
    decreases batch.len(),
{
    if batch.len() == 0 {
        assert(decode_all(encode_all(batch)) =~= batch);
    } else {
        let head = encode_all(batch.drop_last());
        let tail = batch.last().spec_encode();
        let n = (batch.len() - 1) as nat;
        decode_all_inverts_encode_all(batch.drop_last());
        encoded_length(batch.drop_last());
        encoded_length(batch);
        lemma_decode_prefix(head, tail, n);
        decode_inverts_encode(batch.last());
        assert(record(head + tail, n as int) =~= tail);
        assert(record_count((head + tail).len() as int) == n + 1);
        assert(record_count(head.len() as int) == n);
        assert(decode_all(head + tail) =~= batch);
    }
}

/// A batch of one more command is the batch, then that command.
pub proof fn rasterized_all_push(canvas: Seq<u8>, batch: Seq<ClientMessage>, message: ClientMessage)
    ensures
        rasterized_all(canvas, Seq::empty()) == canvas,
        rasterized_all(canvas, batch.push(message)) == rasterized(
            rasterized_all(canvas, batch),
            message,
        ),
{
    assert(batch.push(message).drop_last() =~= batch);
}

/// Writing two batches one after the other is writing the one batch that
/// holds the commands of both, in that order.
pub proof fn rasterized_all_concat(
    canvas: Seq<u8>,
    first: Seq<ClientMessage>,
    second: Seq<ClientMessage>,
)
    ensures
        rasterized_all(canvas, first + second) == rasterized_all(rasterized_all(canvas, first), second),
    decreases second.len(),
{
    if second.len() == 0 {
        assert(first + second =~= first);
    } else {
        rasterized_all_concat(canvas, first, second.drop_last());
        assert((first + second).drop_last() =~= first + second.drop_last());
    }
}

/// Painting leaves the length of the buffer as it is.
pub proof fn rasterized_all_length(canvas: Seq<u8>, batch: Seq<ClientMessage>)
    ensures
        rasterized_all(canvas, batch).len() == canvas.len(),
    decreases batch.len(),
{
    if batch.len() > 0 {
        rasterized_all_length(canvas, batch.drop_last());
    }
}

/// A pixel of a region ends with the ink, and every other pixel of the
/// canvas is left as it was.
pub proof fn painted_pixel(
    before: Seq<u8>,
    region: spec_fn(int, int) -> bool,
    ink: Seq<u8>,
    px: int,
    py: int,
)
    requires
        before.len() == BUFFER_LEN,
        ink.len() == CHANNELS,
        in_canvas(px, py),
    ensures
        pixel(paint(before, region, ink), px, py) == (if region(px, py) {
            ink
        } else {
            pixel(before, px, py)
        }),
{
    let after = paint(before, region, ink);
    assert forall|c: int| 0 <= c < CHANNELS implies #[trigger] pixel(after, px, py)[c] == (if region(
        px,
        py,
    ) {
        ink[c]
    } else {
        pixel(before, px, py)[c]
    }) by {
        lemma_offset_pixel(px, py, c);
    }
    lemma_offset_pixel(px, py, 0);
    lemma_offset_pixel(px, py, 2);
    if region(px, py) {
        assert(pixel(after, px, py) =~= ink);
    } else {
        assert(pixel(after, px, py) =~= pixel(before, px, py));
    }
}

/// Applying a command a second time changes nothing: the second pass paints
/// the same pixels with the same ink.  This holds of every command, of a
/// filled cube among them.
pub proof fn rasterized_twice(canvas: Seq<u8>, message: ClientMessage)
    ensures
        rasterized(rasterized(canvas, message), message) == rasterized(canvas, message),
{
    assert(rasterized(rasterized(canvas, message), message) =~= rasterized(canvas, message));
}

/// After a filled circle of radius `height` around `(x, y)` has been drawn,
/// every pixel of the canvas whose squared distance to the centre is at most
/// the square of the radius has the colour of the command, and every pixel
/// outside the square that bounds the circle is as it was.
pub proof fn filled_circle_containment(canvas: Seq<u8>, message: ClientMessage, px: int, py: int)
    requires
        canvas.len() == BUFFER_LEN,
        message.action is DrawCircleNormal,
        in_canvas(px, py),
    ensures
        distance_squared(message.x as int, message.y as int, px, py) <= message.height
            * message.height ==> pixel(rasterized(canvas, message), px, py) == message.color@,
        (px < message.x - message.height || px > message.x + message.height || py < message.y
            - message.height || py > message.y + message.height) ==> pixel(
            rasterized(canvas, message),
            px,
            py,
        ) == pixel(canvas, px, py),
{
    painted_pixel(canvas, |qx: int, qy: int| message.covers(qx, qy), message.ink(), px, py);
    if message.covers(px, py) {
        lemma_disc_in_box(
            message.x as int,
            message.y as int,
            message.height as int,
            px,
            py,
        );
    }
}

/// The ring of a hollow circle lies within the disc of the filled circle of
/// the same centre and radius, and leaves a pixel of the canvas out, the
/// centre, exactly where the radius is not 2.  With the radius 2 the ring
/// reaches the centre, and the two circles are one.
pub proof fn ring_within_disc(hollow: ClientMessage, filled: ClientMessage)
    requires
        hollow.valid(),
        hollow.action is DrawCircleHollow,
        filled == (ClientMessage { action: Action::DrawCircleNormal, ..hollow }),
    ensures
        forall|px: int, py: int| #[trigger] hollow.covers(px, py) ==> filled.covers(px, py),
        (exists|px: int, py: int|
            in_canvas(px, py) && #[trigger] filled.covers(px, py) && !hollow.covers(px, py)) <==> hollow.height
            != 2,
{
    let x = hollow.x as int;
    let y = hollow.y as int;
    let r = hollow.height as int;
    assert((r - 2) * (r - 2) > 0 <==> r != 2) by (nonlinear_arith);
    assert(r * r >= 0) by (nonlinear_arith);
    if r != 2 {
        assert(in_canvas(x, y) && filled.covers(x, y) && !hollow.covers(x, y));
    } else {
        assert forall|px: int, py: int| #[trigger] filled.covers(px, py) implies hollow.covers(
            px,
            py,
        ) by {
            assert((px - x) * (px - x) >= 0 && (py - y) * (py - y) >= 0) by (nonlinear_arith);
        }
    }
}

/// The frame of a hollow cube lies within the square of the filled cube of
/// the same place and size, and leaves one of its pixels out, exactly where
/// the square runs past the right and the bottom edge of the canvas and
/// starts at least four pixels before each.  Elsewhere the frame paints the
/// row below or the column right of the square, or fills all of it.
pub proof fn frame_within_square(hollow: ClientMessage, filled: ClientMessage)
    requires
        hollow.valid(),
        hollow.action is DrawCubeHollow,
        filled == (ClientMessage { action: Action::DrawCubeNormal, ..hollow }),
    ensures
        ((forall|px: int, py: int|
            in_canvas(px, py) && #[trigger] hollow.covers(px, py) ==> filled.covers(px, py)) && (
        exists|px: int, py: int|
            in_canvas(px, py) && #[trigger] filled.covers(px, py) && !hollow.covers(px, py))) <==> (
        hollow.x + hollow.height >= WIDTH - 1 && hollow.y + hollow.height >= HEIGHT - 1 && hollow.x
            <= WIDTH - 4 && hollow.y <= HEIGHT - 4),
{
    let x = hollow.x as int;
    let y = hollow.y as int;
    let h = hollow.height as int;
    let fewer = exists|px: int, py: int|
        in_canvas(px, py) && #[trigger] filled.covers(px, py) && !hollow.covers(px, py);
    if x + h < WIDTH - 1 {
        assert(in_canvas(x + h + 1, y) && hollow.covers(x + h + 1, y) && !filled.covers(x + h + 1, y));
    } else if y + h < HEIGHT - 1 {
        assert(in_canvas(x, y + h + 1) && hollow.covers(x, y + h + 1) && !filled.covers(x, y + h + 1));
    } else if x <= WIDTH - 4 && y <= HEIGHT - 4 {
        assert(in_canvas(x + 2, y + 2) && filled.covers(x + 2, y + 2) && !hollow.covers(x + 2, y + 2));
    } else {
        assert(!fewer);
    }
}

/// A listener that is flagged as open stays in the set, every listener that
/// stays was flagged as open, and as many stay as there are open flags.
pub proof fn pruned_listeners<T>(listeners: Seq<T>, closed: Seq<bool>)
    requires
        closed.len() == listeners.len(),
    ensures
        forall|i: int|
            0 <= i < listeners.len() && !closed[i] ==> still_open(listeners, closed).contains(
                #[trigger] listeners[i],
            ),
        forall|j: int|
            0 <= j < still_open(listeners, closed).len() ==> exists|i: int|
                0 <= i < listeners.len() && !closed[i] && listeners[i] == #[trigger] still_open(
                    listeners,
                    closed,
                )[j],
        still_open(listeners, closed).len() == open_count(closed),
    decreases listeners.len(),
{
    if listeners.len() > 0 {
        let last = listeners.len() - 1;
        let head = listeners.take(last);
        let flags = closed.take(last);
        lemma_flags_beyond(head, closed, flags);
        pruned_listeners(head, flags);
        let kept = still_open(head, flags);
        let all = still_open(listeners, closed);
        assert forall|i: int| 0 <= i < listeners.len() && !closed[i] implies all.contains(
            #[trigger] listeners[i],
        ) by {
            if i < last {
                assert(head[i] == listeners[i]);
                let j = choose|j: int| 0 <= j < kept.len() && kept[j] == head[i];
                assert(all[j] == listeners[i]);
            } else {
                assert(all[all.len() - 1] == listeners[i]);
            }
        }
        assert forall|j: int| 0 <= j < all.len() implies exists|i: int|
            0 <= i < listeners.len() && !closed[i] && listeners[i] == #[trigger] all[j] by {
            if j < kept.len() {
                let i = choose|i: int| 0 <= i < head.len() && !flags[i] && head[i] == kept[j];
                assert(0 <= i < listeners.len() && !closed[i] && listeners[i] == all[j]);
            } else {
                assert(!closed[last] && listeners[last] == all[j]);
            }
        }
        assert(closed.drop_last() =~= flags);
    } else {
        assert(closed =~= Seq::<bool>::empty());
    }
}

/// Flags beyond the last listener do not matter.
proof fn lemma_flags_beyond<T>(listeners: Seq<T>, closed: Seq<bool>, flags: Seq<bool>)
    requires
        listeners.len() <= flags.len() <= closed.len(),
        flags == closed.take(flags.len() as int),
    ensures
        still_open(listeners, closed) == still_open(listeners, flags),
    decreases listeners.len(),
{
    if listeners.len() > 0 {
        lemma_flags_beyond(listeners.take(listeners.len() - 1), closed, flags);
    }
}

/// A snapshot of the full length is loaded as it is: saving the canvas and
/// loading it again gives the same canvas.
pub proof fn snapshot_round_trip(snapshot: Seq<u8>)
    requires
        snapshot.len() == BUFFER_LEN,
    ensures
        loaded_canvas(snapshot) == snapshot,
{
    assert(loaded_canvas(snapshot) =~= snapshot);
}

/// A one-pixel line passes through both of its end points.
pub proof fn line_through_end_points(segment: Segment)
    ensures
        segment.covers(segment.x1, segment.y1),
        segment.covers(segment.x2, segment.y2),
{
    let n = segment.reach();
    lemma_visits_from(segment, 0, n, segment.x1, segment.y1);
    segment.lemma_walk(n);
    segment.lemma_step(segment.cursor(n));
}

/// A one-pixel line passes through no point outside the rectangle that its
/// end points span.
pub proof fn line_between_end_points(segment: Segment, px: int, py: int)
    requires
        segment.covers(px, py),
    ensures
        segment.x1 <= px <= segment.x2 || segment.x2 <= px <= segment.x1,
        segment.y1 <= py <= segment.y2 || segment.y2 <= py <= segment.y1,
{
    lemma_visits_on_track(segment, segment.reach(), px, py);
}

/// What is visited within `k` steps is visited within more.
proof fn lemma_visits_from(segment: Segment, k: nat, n: nat, px: int, py: int)
    requires
        k <= n,
        segment.visits(k, px, py),
    ensures
        segment.visits(n, px, py),
    decreases n,
{
    if n > k {
        lemma_visits_from(segment, k, (n - 1) as nat, px, py);
    }
}

/// Every point that is visited lies between the end points.
proof fn lemma_visits_on_track(segment: Segment, k: nat, px: int, py: int)
    requires
        segment.visits(k, px, py),
    ensures
        segment.x1 <= px <= segment.x2 || segment.x2 <= px <= segment.x1,
        segment.y1 <= py <= segment.y2 || segment.y2 <= py <= segment.y1,
    decreases k,
{
    segment.lemma_walk(k);
    if !(segment.cursor(k).x == px && segment.cursor(k).y == py) {
        lemma_visits_on_track(segment, (k - 1) as nat, px, py);
    }
}

/// A thick line passes through the four pixels at its first end point.
pub proof fn thick_line_through_start(segment: Segment)
    ensures
        segment.thick_covers(segment.x1, segment.y1),
        segment.thick_covers(segment.x1 + 1, segment.y1),
        segment.thick_covers(segment.x1, segment.y1 + 1),
        segment.thick_covers(segment.x1 + 1, segment.y1 + 1),
{
    line_through_end_points(segment);
    line_through_end_points(segment.shifted(1, 0));
    line_through_end_points(segment.shifted(0, 1));
    line_through_end_points(segment.shifted(1, 1));
}

/// A thick line passes through no point outside the rectangle that its end
/// points span, widened by one pixel to the right and below.
pub proof fn thick_line_between_end_points(segment: Segment, px: int, py: int)
    requires
        segment.thick_covers(px, py),
    ensures
        segment.x1 <= px <= segment.x2 + 1 || segment.x2 <= px <= segment.x1 + 1,
        segment.y1 <= py <= segment.y2 + 1 || segment.y2 <= py <= segment.y1 + 1,
{
    if segment.covers(px, py) {
        line_between_end_points(segment, px, py);
    } else if segment.shifted(1, 0).covers(px, py) {
        line_between_end_points(segment.shifted(1, 0), px, py);
    } else if segment.shifted(0, 1).covers(px, py) {
        line_between_end_points(segment.shifted(0, 1), px, py);
    } else {
        line_between_end_points(segment.shifted(1, 1), px, py);
    }
}

/// A hollow triangle never touches only pixels of the filled one and fewer
/// of them.  Unless its apex is the last pixel of the canvas, it touches a
/// pixel that the filled triangle leaves alone: the one right of the apex,
/// which the thick stroke reaches, or the one below and left of the apex,
/// which is the first step of the left edge.  With the apex on the last pixel
/// of the canvas the filled triangle is that pixel alone, and the hollow one
/// touches it too.
pub proof fn triangle_outline_leaves_triangle(hollow: ClientMessage, filled: ClientMessage)
    requires
        hollow.valid(),
        hollow.action is DrawTriangleHollow,
        filled == (ClientMessage { action: Action::DrawTriangleNormal, ..hollow }),
    ensures
        hollow.x < WIDTH - 1 || hollow.y < HEIGHT - 1 ==> exists|px: int, py: int|
            in_canvas(px, py) && #[trigger] hollow.covers(px, py) && !filled.covers(px, py),
        hollow.x == WIDTH - 1 && hollow.y == HEIGHT - 1 ==> forall|px: int, py: int|
            in_canvas(px, py) && #[trigger] filled.covers(px, py) ==> hollow.covers(px, py),
{
    let x = hollow.x as int;
    let y = hollow.y as int;
    let h = hollow.height as int;
    let left = Segment { x1: x, y1: y, x2: x - h, y2: y + 2 * h };
    thick_line_through_start(left);
    if x < WIDTH - 1 {
        lemma_triangle_shape(x, y, h, x + 1, y);
        assert(in_canvas(x + 1, y) && hollow.covers(x + 1, y) && !filled.covers(x + 1, y));
    } else if y < HEIGHT - 1 {
        assert(left.cursor(1).x == x - 1 && left.cursor(1).y == y + 1) by {
            reveal_with_fuel(Segment::cursor, 2);
        }
        lemma_visits_from(left, 1, left.reach(), x - 1, y + 1);
        lemma_triangle_shape(x, y, h, x - 1, y + 1);
        assert(in_canvas(x - 1, y + 1) && hollow.covers(x - 1, y + 1) && !filled.covers(x - 1, y + 1));
    } else {
        assert forall|px: int, py: int|
            in_canvas(px, py) && #[trigger] filled.covers(px, py) implies hollow.covers(px, py) by {
            lemma_triangle_shape(x, y, h, px, py);
        }
    }
}

/// A hollow hexagon is no part of the filled one wherever its right-hand
/// corner lies left of the last column or its bottom edge lies on the canvas.
/// It then touches a pixel that the filled hexagon leaves alone: the one
/// right of the right-hand corner, which the thick stroke reaches, or the
/// left corner of the bottom edge, whose row the filled hexagon does not hold.
pub proof fn hexagon_outline_leaves_hexagon(hollow: ClientMessage, filled: ClientMessage)
    requires
        hollow.valid(),
        hollow.action is DrawHexagonHollow,
        filled == (ClientMessage { action: Action::DrawHexagonNormal, ..hollow }),
        hollow.x + hollow.height + 1 < WIDTH || hollow.y + hollow.height < HEIGHT,
    ensures
        exists|px: int, py: int|
            in_canvas(px, py) && #[trigger] hollow.covers(px, py) && !filled.covers(px, py),
{
    let x = hollow.x as int;
    let y = hollow.y as int;
    let h = hollow.height as int;
    reveal_with_fuel(on_hexagon_edges, 7);
    if x + h + 1 < WIDTH {
        thick_line_through_start(hexagon_edge(x, y, h, 0));
        assert(in_canvas(x + h + 1, y) && hollow.covers(x + h + 1, y) && !filled.covers(x + h + 1, y));
    } else {
        let bottom = hexagon_edge(x, y, h, 4);
        thick_line_through_start(bottom);
        assert(in_canvas(bottom.x1, y + h) && hollow.covers(bottom.x1, y + h) && !filled.covers(
            bottom.x1,
            y + h,
        ));
    }
}

/// The outline of a triangle stays within the box of the triangle, widened
/// by one pixel to the right and below.
proof fn lemma_triangle_outline_in_box(x: int, y: int, h: int, px: int, py: int)
    requires
        h >= 0,
        on_triangle_outline(x, y, h, px, py),
    ensures
        x - h <= px <= x + h + 1,
        y <= py <= y + 2 * h + 1,
{
    let left = Segment { x1: x, y1: y, x2: x - h, y2: y + 2 * h };
    let base = Segment { x1: x - h, y1: y + 2 * h, x2: x + h, y2: y + 2 * h };
    let right = Segment { x1: x + h, y1: y + 2 * h, x2: x, y2: y };
    if left.thick_covers(px, py) {
        thick_line_between_end_points(left, px, py);
    } else if base.thick_covers(px, py) {
        thick_line_between_end_points(base, px, py);
    } else {
        thick_line_between_end_points(right, px, py);
    }
}

/// The first `n` edges of a hexagon stay within the box of the hexagon,
/// widened by one pixel to the right and below.
proof fn lemma_hexagon_edges_in_box(cx: int, cy: int, s: int, n: int, px: int, py: int)
    requires
        s >= 0,
        cx >= 0,
        0 <= n <= 6,
        on_hexagon_edges(cx, cy, s, n, px, py),
    ensures
        cx - s <= px <= cx + s + 1,
        cy - s <= py <= cy + s + 1,
    decreases n,
{
    if hexagon_edge(cx, cy, s, n - 1).thick_covers(px, py) {
        thick_line_between_end_points(hexagon_edge(cx, cy, s, n - 1), px, py);
    } else {
        lemma_hexagon_edges_in_box(cx, cy, s, n - 1, px, py);
    }
}

/// A command touches nothing far from its click point: every grid point that
/// it covers lies at most `height` columns left of it and `height + 1`
/// columns right of it, at most `height` rows above it and `2 * height + 1`
/// rows below it.
pub proof fn command_stays_near_click(message: ClientMessage, px: int, py: int)
    requires
        message.valid(),
        message.covers(px, py),
    ensures
        message.x - message.height <= px <= message.x + message.height + 1,
        message.y - message.height <= py <= message.y + 2 * message.height + 1,
{
    let x = message.x as int;
    let y = message.y as int;
    let h = message.height as int;
    match message.action {
        Action::DrawCircleNormal => {
            lemma_disc_in_box(x, y, h, px, py);
        },
        Action::DrawCircleHollow => {
            lemma_disc_in_box(x, y, h, px, py);
        },
        Action::DrawTriangleNormal => {
            lemma_triangle_shape(x, y, h, px, py);
        },
        Action::DrawTriangleHollow => {
            lemma_triangle_outline_in_box(x, y, h, px, py);
        },
        Action::DrawHexagonHollow => {
            lemma_hexagon_edges_in_box(x, y, h, 6, px, py);
        },
        _ => {},
    }
}

} // verus!
