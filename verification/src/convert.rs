//! Conversion of one decoded recording into zero-or-one multi-segment
//! track.
//!
//! The caller decodes the raw recording outside the library and hands
//! over each data message reduced to what this logic reads — the message
//! kind, and its fields' names and integer position/altitude values.
//! The coordinate extraction and the gap-based segmentation are verified
//! over that plain model, for every message list the decoder may
//! produce.
//!
//! Positions are kept as the recording stores them: semicircles for
//! latitude and longitude, offset fifth-of-millimeter steps for altitude.
//! The caller turns them into degrees and meters when it renders output,
//! and likewise computes the great-circle gap widths between consecutive
//! points; the segmentation itself is a pure function of those flags.

use vstd::prelude::*;
use vstd::string::*;

verus! {

/// A decoded field value, reduced to the two variants the conversion
/// reads; everything else is opaque.
#[derive(Clone, Copy, PartialEq, Eq, Debug)]
pub enum FieldValue {
    SInt32(i32),
    UInt16(u16),
    Other,
}

/// One decoded field: its profile name and its value.
pub struct FitField {
    pub name: String,
    pub value: FieldValue,
}

/// One decoded data message.
pub struct FitMessage {
    pub is_record: bool,
    pub fields: Vec<FitField>,
}

/// Mathematical model of a [`FitField`].
pub struct FitFieldModel {
    pub name: Seq<char>,
    pub value: FieldValue,
}

/// Mathematical model of a [`FitMessage`].
pub struct FitMessageModel {
    pub is_record: bool,
    pub fields: Seq<FitFieldModel>,
}

impl View for FitField {
    type V = FitFieldModel;

    open spec fn view(&self) -> FitFieldModel {
        FitFieldModel { name: self.name@, value: self.value }
    }
}

impl View for FitMessage {
    type V = FitMessageModel;

    open spec fn view(&self) -> FitMessageModel {
        FitMessageModel {
            is_record: self.is_record,
            fields: self.fields@.map_values(|f: FitField| f@),
        }
    }
}

/// The models of a decoded message list.
pub open spec fn messages_model(msgs: Seq<FitMessage>) -> Seq<FitMessageModel> {
    msgs.map_values(|m: FitMessage| m@)
}

/// One track point, in raw recording units.
#[derive(Clone, Copy, PartialEq, Eq, Debug)]
pub struct TrackPoint {
    pub lat_semicircles: i32,
    pub lon_semicircles: i32,
    pub altitude: Option<u16>,
}

/// The field name carrying latitude semicircles.
pub open spec fn lat_field_name() -> Seq<char> {
    "position_lat"@
}

/// The field name carrying longitude semicircles.
pub open spec fn lon_field_name() -> Seq<char> {
    "position_long"@
}

/// The field name carrying the scaled altitude.
pub open spec fn alt_field_name() -> Seq<char> {
    "altitude"@
}

/// The signed 32-bit payload of a value, if it has one.
pub open spec fn sint32_of(v: FieldValue) -> Option<i32> {
    match v {
        FieldValue::SInt32(x) => Some(x),
        _ => None,
    }
}

/// The unsigned 16-bit payload of a value, if it has one.
pub open spec fn uint16_of(v: FieldValue) -> Option<u16> {
    match v {
        FieldValue::UInt16(x) => Some(x),
        _ => None,
    }
}

/// The last signed 32-bit value a field of this name carries, if any —
/// a later occurrence of the name overrides an earlier one.
pub open spec fn last_sint32(fields: Seq<FitFieldModel>, name: Seq<char>) -> Option<i32>
    decreases fields.len(),
{
    if fields.len() == 0 {
        None
    } else if fields.last().name == name && sint32_of(fields.last().value) is Some {
        sint32_of(fields.last().value)
    } else {
        last_sint32(fields.drop_last(), name)
    }
}

/// The last unsigned 16-bit value a field of this name carries, if any.
pub open spec fn last_uint16(fields: Seq<FitFieldModel>, name: Seq<char>) -> Option<u16>
    decreases fields.len(),
{
    if fields.len() == 0 {
        None
    } else if fields.last().name == name && uint16_of(fields.last().value) is Some {
        uint16_of(fields.last().value)
    } else {
        last_uint16(fields.drop_last(), name)
    }
}

/// The track point a data message carries: present exactly when both a
/// latitude and a longitude field hold signed 32-bit values.
pub open spec fn record_point(m: FitMessageModel) -> Option<TrackPoint> {
    match (last_sint32(m.fields, lat_field_name()), last_sint32(m.fields, lon_field_name())) {
        (Some(lat), Some(lon)) => Some(TrackPoint {
            lat_semicircles: lat,
            lon_semicircles: lon,
            altitude: last_uint16(m.fields, alt_field_name()),
        }),
        _ => None,
    }
}

/// Extract the position from one data message, if it has a valid one.
pub fn extract_coordinate_from_record(msg: &FitMessage) -> (r: Option<TrackPoint>)
    ensures
        r == record_point(msg@),
{
    let lat_key = String::from_str("position_lat");
    let lon_key = String::from_str("position_long");
    let alt_key = String::from_str("altitude");
    let mut lat_opt: Option<i32> = None;
    let mut lon_opt: Option<i32> = None;
    let mut alt_opt: Option<u16> = None;
    let n = msg.fields.len();
    let mut i: usize = 0;
    assert(msg@.fields.take(0) =~= Seq::<FitFieldModel>::empty());
    proof {
        reveal_strlit("position_lat");
        reveal_strlit("position_long");
        reveal_strlit("altitude");
        assert(lat_field_name().len() == 12);
        assert(lon_field_name().len() == 13);
        assert(alt_field_name().len() == 8);
    }
    while i < n
        invariant
            n == msg.fields@.len(),
            i <= n,
            msg@.fields == msg.fields@.map_values(|f: FitField| f@),
            lat_key@ == lat_field_name(),
            lon_key@ == lon_field_name(),
            alt_key@ == alt_field_name(),
            lat_field_name() != lon_field_name(),
            lat_field_name() != alt_field_name(),
            lon_field_name() != alt_field_name(),
            lat_opt == last_sint32(msg@.fields.take(i as int), lat_field_name()),
            lon_opt == last_sint32(msg@.fields.take(i as int), lon_field_name()),
            alt_opt == last_uint16(msg@.fields.take(i as int), alt_field_name()),
        decreases n - i,
    {
        let field = &msg.fields[i];
        proof {
            reveal_strlit("position_lat");
            reveal_strlit("position_long");
            reveal_strlit("altitude");
            let pre = msg@.fields.take(i as int);
            let post = msg@.fields.take(i + 1);
            assert(post.drop_last() =~= pre);
            assert(post.last() == msg@.fields[i as int]);
            assert(msg@.fields[i as int] == msg.fields@[i as int]@);
        }
        if field.name.eq(&lat_key) {
            match field.value {
                FieldValue::SInt32(v) => { lat_opt = Some(v); }
                _ => {}
            }
        } else if field.name.eq(&lon_key) {
            match field.value {
                FieldValue::SInt32(v) => { lon_opt = Some(v); }
                _ => {}
            }
        } else if field.name.eq(&alt_key) {
            match field.value {
                FieldValue::UInt16(v) => { alt_opt = Some(v); }
                _ => {}
            }
        }
        i = i + 1;
    }
    proof {
        assert(msg@.fields.take(n as int) =~= msg@.fields);
    }
    match (lat_opt, lon_opt) {
        (Some(lat), Some(lon)) => Some(TrackPoint {
            lat_semicircles: lat,
            lon_semicircles: lon,
            altitude: alt_opt,
        }),
        _ => None,
    }
}

/// The ordered track a recording's data messages carry: every valid
/// position of every record message, in recording order.
pub open spec fn track_of(msgs: Seq<FitMessageModel>) -> Seq<TrackPoint>
    decreases msgs.len(),
{
    if msgs.len() == 0 {
        Seq::empty()
    } else {
        let prev = track_of(msgs.drop_last());
        let m = msgs.last();
        if m.is_record {
            match record_point(m) {
                Some(p) => prev.push(p),
                None => prev,
            }
        } else {
            prev
        }
    }
}

/// Collect the track from the decoded messages, in recording order.
pub fn extract_coordinates(msgs: &Vec<FitMessage>) -> (r: Vec<TrackPoint>)
    ensures
        r@ == track_of(messages_model(msgs@)),
{
    let ghost ms = messages_model(msgs@);
    let mut coords: Vec<TrackPoint> = Vec::new();
    let n = msgs.len();
    let mut i: usize = 0;
    assert(coords@ =~= track_of(ms.take(0)));
    while i < n
        invariant
            n == msgs@.len(),
            i <= n,
            ms == messages_model(msgs@),
            coords@ == track_of(ms.take(i as int)),
        decreases n - i,
    {
        proof {
            let pre = ms.take(i as int);
            let post = ms.take(i + 1);
            assert(post.drop_last() =~= pre);
            assert(post.last() == ms[i as int]);
            assert(ms[i as int] == msgs@[i as int]@);
        }
        let msg = &msgs[i];
        if msg.is_record {
            match extract_coordinate_from_record(msg) {
                Some(p) => { coords.push(p); }
                None => {}
            }
        }
        i = i + 1;
    }
    proof {
        assert(ms.take(n as int) =~= ms);
    }
    coords
}

/// One segmentation step: append the point to the open segment; where
/// the gap to the next point is wide, close the segment, keeping it only
/// if it has at least two points.
pub open spec fn seg_step(
    segs: Seq<Seq<TrackPoint>>,
    cur: Seq<TrackPoint>,
    c: TrackPoint,
    close: bool,
) -> (Seq<Seq<TrackPoint>>, Seq<TrackPoint>) {
    let grown = cur.push(c);
    if close {
        (if grown.len() >= 2 { segs.push(grown) } else { segs }, Seq::empty())
    } else {
        (segs, grown)
    }
}

/// The segmentation state — closed segments and the open one — after
/// walking the first `i` points.
pub open spec fn seg_state(coords: Seq<TrackPoint>, wide: Seq<bool>, i: int)
    -> (Seq<Seq<TrackPoint>>, Seq<TrackPoint>)
    decreases i,
{
    if i <= 0 {
        (Seq::empty(), Seq::empty())
    } else {
        let prev = seg_state(coords, wide, i - 1);
        let close = i - 1 < wide.len() && wide[i - 1];
        seg_step(prev.0, prev.1, coords[i - 1], close)
    }
}

/// The segments of a track under the given wide-gap flags: split after
/// each flagged gap, and drop every segment of fewer than two points.
pub open spec fn split_segments(coords: Seq<TrackPoint>, wide: Seq<bool>) -> Seq<Seq<TrackPoint>> {
    let st = seg_state(coords, wide, coords.len() as int);
    if st.1.len() >= 2 {
        st.0.push(st.1)
    } else {
        st.0
    }
}

/// The models of a vector of segments.
pub open spec fn segments_model(s: Seq<Vec<TrackPoint>>) -> Seq<Seq<TrackPoint>> {
    s.map_values(|v: Vec<TrackPoint>| v@)
}

/// Split the track into segments, ending one and starting the next
/// wherever `wide` flags the gap between consecutive points; a flag at
/// position `i` speaks of the gap between points `i` and `i + 1`.
pub fn split_coordinates_on_gaps(coords: &Vec<TrackPoint>, wide: &Vec<bool>)
    -> (segs: Vec<Vec<TrackPoint>>)
    requires
        wide@.len() + 1 == coords@.len(),
    ensures
        segments_model(segs@) == split_segments(coords@, wide@),
{
    let mut segs: Vec<Vec<TrackPoint>> = Vec::new();
    let mut cur: Vec<TrackPoint> = Vec::new();
    let n = coords.len();
    let mut i: usize = 0;
    assert(segments_model(segs@) =~= seg_state(coords@, wide@, 0).0);
    assert(cur@ =~= seg_state(coords@, wide@, 0).1);
    while i < n
        invariant
            n == coords@.len(),
            wide@.len() + 1 == coords@.len(),
            i <= n,
            segments_model(segs@) == seg_state(coords@, wide@, i as int).0,
            cur@ == seg_state(coords@, wide@, i as int).1,
        decreases n - i,
    {
        let ghost segs0 = segs@;
        let ghost cur0 = cur@;
        cur.push(coords[i]);
        let close = i + 1 < n && wide[i];
        if close {
            if cur.len() >= 2 {
                let done = cur;
                cur = Vec::new();
                segs.push(done);
                proof {
                    assert(segments_model(segs@)
                        =~= segments_model(segs0).push(cur0.push(coords@[i as int])));
                }
            } else {
                cur = Vec::new();
            }
        }
        i = i + 1;
    }
    if cur.len() >= 2 {
        let ghost segs0 = segs@;
        let ghost cur0 = cur@;
        segs.push(cur);
        proof {
            assert(segments_model(segs@) =~= segments_model(segs0).push(cur0));
        }
    }
    segs
}

/// The conversion decision after decoding: fewer than two recovered
/// coordinates mean the activity has no usable track, and so does a
/// split that leaves no segment standing.
pub open spec fn spec_track_segments(coords: Seq<TrackPoint>, wide: Seq<bool>)
    -> Option<Seq<Seq<TrackPoint>>> {
    if coords.len() <= 1 {
        None
    } else {
        let segs = split_segments(coords, wide);
        if segs.len() == 0 {
            None
        } else {
            Some(segs)
        }
    }
}

/// Build the activity's track geometry from its extracted coordinates
/// and the wide-gap flags, or report the activity empty (`None`).
pub fn segment_track(coords: &Vec<TrackPoint>, wide: &Vec<bool>)
    -> (r: Option<Vec<Vec<TrackPoint>>>)
    requires
        coords@.len() <= 1 || wide@.len() + 1 == coords@.len(),
    ensures
        match r {
            Some(segs) => spec_track_segments(coords@, wide@)
                == Some(segments_model(segs@)),
            None => spec_track_segments(coords@, wide@) is None,
        },
{
    if coords.len() <= 1 {
        return None;
    }
    let segs = split_coordinates_on_gaps(coords, wide);
    if segs.len() == 0 {
        None
    } else {
        Some(segs)
    }
}

/// With no wide gap among the first `i` flags, nothing has been closed
/// and the open segment holds the first `i` points.
proof fn lemma_seg_state_no_gap(coords: Seq<TrackPoint>, wide: Seq<bool>, i: int)
    requires
        wide.len() + 1 == coords.len(),
        0 <= i <= coords.len(),
        forall|j: int| 0 <= j < i && j < wide.len() ==> !wide[j],
    ensures
        seg_state(coords, wide, i).0 =~= Seq::<Seq<TrackPoint>>::empty(),
        seg_state(coords, wide, i).1 =~= coords.take(i),
    decreases i,
{
    if i > 0 {
        lemma_seg_state_no_gap(coords, wide, i - 1);
        assert(coords.take(i - 1).push(coords[i - 1]) =~= coords.take(i));
    }
}

/// Law: a track with no wide gap stays one segment — the whole track.
pub proof fn lemma_no_gap_single_segment(coords: Seq<TrackPoint>, wide: Seq<bool>)
    requires
        coords.len() >= 2,
        wide.len() + 1 == coords.len(),
        forall|j: int| 0 <= j < wide.len() ==> !wide[j],
    ensures
        split_segments(coords, wide) == seq![coords],
{
    lemma_seg_state_no_gap(coords, wide, coords.len() as int);
    assert(coords.take(coords.len() as int) =~= coords);
    assert(split_segments(coords, wide) =~= seq![coords]);
}

/// With exactly one wide gap, after the gap the closed part is the
/// prefix through the gap and the open segment is what follows so far.
proof fn lemma_seg_state_one_gap(coords: Seq<TrackPoint>, wide: Seq<bool>, g: int, i: int)
    requires
        wide.len() + 1 == coords.len(),
        0 <= g < wide.len(),
        wide[g],
        forall|j: int| 0 <= j < wide.len() && j != g ==> !wide[j],
        g >= 1,
        g + 1 <= i <= coords.len(),
    ensures
        seg_state(coords, wide, i).0 =~= seq![coords.take(g + 1)],
        seg_state(coords, wide, i).1 =~= coords.subrange(g + 1, i),
    decreases i,
{
    if i == g + 1 {
        lemma_seg_state_no_gap(coords, wide, g);
        assert(coords.take(g).push(coords[g]) =~= coords.take(g + 1));
        assert(coords.subrange(g + 1, g + 1) =~= Seq::<TrackPoint>::empty());
    } else {
        lemma_seg_state_one_gap(coords, wide, g, i - 1);
        assert(coords.subrange(g + 1, i - 1).push(coords[i - 1])
            =~= coords.subrange(g + 1, i));
    }
}

/// Law: a track with exactly one wide gap, and at least two points on
/// each side of it, splits into exactly the two expected segments.
pub proof fn lemma_one_gap_two_segments(coords: Seq<TrackPoint>, wide: Seq<bool>, g: int)
    requires
        wide.len() + 1 == coords.len(),
        0 <= g < wide.len(),
        wide[g],
        forall|j: int| 0 <= j < wide.len() && j != g ==> !wide[j],
        g >= 1,
        coords.len() - (g + 1) >= 2,
    ensures
        split_segments(coords, wide) == seq![coords.take(g + 1), coords.skip(g + 1)],
{
    lemma_seg_state_one_gap(coords, wide, g, coords.len() as int);
    assert(coords.subrange(g + 1, coords.len() as int) =~= coords.skip(g + 1));
    assert(split_segments(coords, wide)
        =~= seq![coords.take(g + 1), coords.skip(g + 1)]);
}

/// Every closed segment in the state holds at least two points.
proof fn lemma_seg_state_min_len(coords: Seq<TrackPoint>, wide: Seq<bool>, i: int)
    requires
        0 <= i,
    ensures
        forall|j: int| 0 <= j < seg_state(coords, wide, i).0.len()
            ==> #[trigger] seg_state(coords, wide, i).0[j].len() >= 2,
    decreases i,
{
    if i > 0 {
        lemma_seg_state_min_len(coords, wide, i - 1);
        let prev = seg_state(coords, wide, i - 1);
        let st = seg_state(coords, wide, i);
        assert forall|j: int| 0 <= j < st.0.len() implies st.0[j].len() >= 2 by {
            if j < prev.0.len() {
                assert(st.0[j] == prev.0[j]);
            }
        }
    }
}

/// Law: every segment the split keeps holds at least two points.
pub proof fn lemma_segments_min_len(coords: Seq<TrackPoint>, wide: Seq<bool>)
    ensures
        forall|j: int| 0 <= j < split_segments(coords, wide).len()
            ==> #[trigger] split_segments(coords, wide)[j].len() >= 2,
{
    lemma_seg_state_min_len(coords, wide, coords.len() as int);
}

} // verus!

