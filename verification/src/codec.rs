//! The persisted text format of animation sets.
//!
//! An animation set is written as one structured-record document in a
//! fixed, canonical shape: objects with known keys in a known order,
//! quoted strings, decimal integers, and no blank space.  Printing
//! and parsing are both verified, and parsing is proved to undo
//! printing exactly, so a round trip through the persisted format
//! loses nothing.

use crate::chars::is_digit;
use crate::chars::spec_digit_run_len;
use crate::chars::spec_digits_val;
use crate::chars::spec_escape;
use crate::chars::spec_expect;
use crate::chars::spec_nat_chars;
use crate::chars::spec_parse_digits;
use crate::chars::spec_parse_str_content;
use crate::chars::lemma_parse_print_digits;
use crate::chars::lemma_parse_print_str;
use crate::chars::lemma_nat_chars;
use crate::assoc::assoc_has;
use crate::assoc::assoc_unique;
use crate::track::ComponentTrackModel;
use crate::track::InterpolationMode;
use crate::track::KeyframeModel;
use crate::track::TrackDataContainerModel;
use crate::track::TrackModel;
use crate::assoc::IdMap;
use crate::assoc::StrMap;
use crate::track::Keyframe;
use crate::track::Track;
use crate::track::TrackDataContainer;
use crate::track::ComponentTrack;
use crate::track::SingleComponentTrack;
use crate::track::MultipleSingleComponentTrack;
use crate::entity::EntityAnimation;
use crate::entity::EntityAnimations;
use crate::value::AssetPathModel;
use crate::names::ShortTypePath;
use crate::value::AssetPath;
use crate::value::TrackValue;
use crate::value::TrackValueModel;
use crate::value::ValueBinding;
use crate::value::ValueBindingModel;
use vstd::prelude::*;

verus! {

/// A window into printed text keeps its characters: any sub-window of
/// a window equal to `w` equals the matching sub-window of `w`.
pub proof fn lemma_subrange_at(s: Seq<char>, pos: int, w: Seq<char>, a: int, b: int)
    requires
        0 <= pos,
        pos + w.len() <= s.len(),
        s.subrange(pos, pos + w.len() as int) == w,
        0 <= a <= b <= w.len(),
    ensures
        s.subrange(pos + a, pos + b) == w.subrange(a, b),
{
    assert forall|i: int| 0 <= i < b - a implies s.subrange(pos + a, pos + b)[i] == w.subrange(
        a,
        b,
    )[i] by {
        assert(s.subrange(pos + a, pos + b)[i] == s[pos + a + i]);
        assert(s.subrange(pos, pos + w.len() as int)[a + i] == s[pos + (a + i)]);
        assert(w.subrange(a, b)[i] == w[a + i]);
    }
    assert(s.subrange(pos + a, pos + b) =~= w.subrange(a, b));
}

/// One character of printed text, by position.
pub proof fn lemma_char_at(s: Seq<char>, pos: int, w: Seq<char>, i: int)
    requires
        0 <= pos,
        pos + w.len() <= s.len(),
        s.subrange(pos, pos + w.len() as int) == w,
        0 <= i < w.len(),
    ensures
        s[pos + i] == w[i],
{
    assert(s.subrange(pos, pos + w.len() as int)[i] == s[pos + i]);
}

/// A quoted string: opening quote, escaped characters, closing quote.
pub open spec fn spec_print_string(x: Seq<char>) -> Seq<char> {
    seq!['"'] + spec_escape(x) + seq!['"']
}

/// What parsing a quoted string at `pos` yields.
pub open spec fn spec_parse_string(s: Seq<char>, pos: int) -> Option<(Seq<char>, int)> {
    if 0 <= pos < s.len() && s[pos] == '"' {
        spec_parse_str_content(s, pos + 1)
    } else {
        None
    }
}

/// Parsing a printed quoted string yields the string back.
pub proof fn lemma_parse_print_string(s: Seq<char>, pos: int, x: Seq<char>)
    requires
        0 <= pos,
        pos + spec_print_string(x).len() <= s.len(),
        s.subrange(pos, pos + spec_print_string(x).len() as int) == spec_print_string(x),
    ensures
        spec_parse_string(s, pos) == Some((x, pos + spec_print_string(x).len() as int)),
{
    let w = spec_print_string(x);
    lemma_char_at(s, pos, w, 0);
    assert(w[0] == '"');
    assert(w.subrange(1, w.len() as int) =~= spec_escape(x) + seq!['"']);
    lemma_subrange_at(s, pos, w, 1, w.len() as int);
    lemma_parse_print_str(s, pos + 1, x);
}

/// A decimal integer, with a leading minus sign when negative.
pub open spec fn spec_print_int(n: int) -> Seq<char> {
    if n < 0 {
        seq!['-'] + spec_nat_chars((-n) as nat)
    } else {
        spec_nat_chars(n as nat)
    }
}

/// What parsing a signed decimal integer at `pos` yields; the
/// magnitude must fit the machine range.
pub open spec fn spec_parse_int(s: Seq<char>, pos: int) -> Option<(int, int)> {
    if 0 <= pos < s.len() && s[pos] == '-' {
        match spec_parse_digits(s, pos + 1) {
            Some((v, p)) => Some((-v, p)),
            None => None,
        }
    } else {
        spec_parse_digits(s, pos)
    }
}

/// Parsing a printed integer yields the integer back, provided no
/// digit follows it directly.
pub proof fn lemma_parse_print_int(s: Seq<char>, pos: int, n: int)
    requires
        0 <= pos,
        -(u128::MAX as int) <= n <= u128::MAX as int,
        pos + spec_print_int(n).len() <= s.len(),
        s.subrange(pos, pos + spec_print_int(n).len() as int) == spec_print_int(n),
        pos + spec_print_int(n).len() == s.len() || !is_digit(
            s[pos + spec_print_int(n).len() as int],
        ),
    ensures
        spec_parse_int(s, pos) == Some((n, pos + spec_print_int(n).len() as int)),
{
    let w = spec_print_int(n);
    if n < 0 {
        lemma_char_at(s, pos, w, 0);
        assert(w[0] == '-');
        assert(w.subrange(1, w.len() as int) =~= spec_nat_chars((-n) as nat));
        lemma_subrange_at(s, pos, w, 1, w.len() as int);
        lemma_parse_print_digits(s, pos + 1, (-n) as nat);
    } else {
        lemma_nat_chars(n as nat);
        if s[pos] == '-' {
            lemma_char_at(s, pos, w, 0);
            assert(is_digit(w[0]));
            assert(false);
        }
        lemma_parse_print_digits(s, pos, n as nat);
    }
}

/// The fields of an object: `"key":value` pairs separated by commas.
pub open spec fn spec_print_obj_fields<T>(
    items: Seq<(Seq<char>, T)>,
    pr: spec_fn(T) -> Seq<char>,
) -> Seq<char>
    decreases items.len(),
{
    if items.len() == 0 {
        Seq::empty()
    } else if items.len() == 1 {
        spec_print_string(items[0].0) + seq![':'] + pr(items[0].1)
    } else {
        spec_print_string(items[0].0) + seq![':'] + pr(items[0].1) + seq![',']
            + spec_print_obj_fields(items.drop_first(), pr)
    }
}

/// An object: its fields between braces.
pub open spec fn spec_print_obj<T>(
    items: Seq<(Seq<char>, T)>,
    pr: spec_fn(T) -> Seq<char>,
) -> Seq<char> {
    seq!['{'] + spec_print_obj_fields(items, pr) + seq!['}']
}

/// What parsing the fields of a non-empty object at `pos` yields,
/// using `pa` for the field values; consumes the closing brace.
pub open spec fn spec_parse_obj_fields<T>(
    s: Seq<char>,
    pos: int,
    pa: spec_fn(Seq<char>, int) -> Option<(T, int)>,
) -> Option<(Seq<(Seq<char>, T)>, int)>
    decreases s.len() - pos,
{
    if pos < 0 || pos >= s.len() || s[pos] != '"' {
        None
    } else {
        match spec_parse_str_content(s, pos + 1) {
            None => None,
            Some((key, p1)) => {
                if !(pos + 1 < p1 < s.len() && s[p1] == ':') {
                    None
                } else {
                    match pa(s, p1 + 1) {
                        None => None,
                        Some((v, p2)) => {
                            if !(p1 + 1 < p2 < s.len()) {
                                None
                            } else if s[p2] == ',' {
                                match spec_parse_obj_fields(s, p2 + 1, pa) {
                                    Some((rest, p3)) => Some((seq![(key, v)] + rest, p3)),
                                    None => None,
                                }
                            } else if s[p2] == '}' {
                                Some((seq![(key, v)], p2 + 1))
                            } else {
                                None
                            }
                        },
                    }
                }
            },
        }
    }
}

/// What parsing an object at `pos` yields.
pub open spec fn spec_parse_obj<T>(
    s: Seq<char>,
    pos: int,
    pa: spec_fn(Seq<char>, int) -> Option<(T, int)>,
) -> Option<(Seq<(Seq<char>, T)>, int)> {
    if 0 <= pos < s.len() && s[pos] == '{' {
        if pos + 1 < s.len() && s[pos + 1] == '}' {
            Some((Seq::empty(), pos + 2))
        } else {
            spec_parse_obj_fields(s, pos + 1, pa)
        }
    } else {
        None
    }
}

/// The item round-trip obligation that an object round trip rests
/// on: wherever the printed form of one of the object's values
/// stands, the value parser reads exactly that value back.
pub open spec fn obj_items_invertible<T>(
    items: Seq<(Seq<char>, T)>,
    pr: spec_fn(T) -> Seq<char>,
    pa: spec_fn(Seq<char>, int) -> Option<(T, int)>,
) -> bool {
    &&& forall|i: int| 0 <= i < items.len() ==> #[trigger] pr(items[i].1).len() >= 1
    &&& forall|i: int, s2: Seq<char>, p2: int|
        #![trigger pa(s2, p2), items[i]]
        0 <= i < items.len() && 0 <= p2 && p2 + pr(items[i].1).len() <= s2.len() && s2.subrange(
            p2,
            p2 + pr(items[i].1).len() as int,
        ) == pr(items[i].1) ==> pa(s2, p2) == Some(
            (items[i].1, p2 + pr(items[i].1).len() as int),
        )
}

/// Parsing the printed fields of a non-empty object, followed by the
/// closing brace, yields the fields back.
pub proof fn lemma_parse_print_obj_fields<T>(
    s: Seq<char>,
    pos: int,
    items: Seq<(Seq<char>, T)>,
    pr: spec_fn(T) -> Seq<char>,
    pa: spec_fn(Seq<char>, int) -> Option<(T, int)>,
)
    requires
        0 <= pos,
        items.len() >= 1,
        pos + spec_print_obj_fields(items, pr).len() + 1 <= s.len(),
        s.subrange(pos, pos + spec_print_obj_fields(items, pr).len() + 1)
            == spec_print_obj_fields(items, pr) + seq!['}'],
        obj_items_invertible(items, pr, pa),
    ensures
        spec_parse_obj_fields(s, pos, pa) == Some(
            (items, pos + spec_print_obj_fields(items, pr).len() + 1),
        ),
    decreases items.len(),
{
    let f = spec_print_obj_fields(items, pr);
    let w = f + seq!['}'];
    let key = items[0].0;
    let v = items[0].1;
    let ks = spec_print_string(key);
    let vs = pr(v);
    let rest = items.drop_first();
    let rf = spec_print_obj_fields(rest, pr);
    let tail: Seq<char> = if items.len() == 1 {
        seq!['}']
    } else {
        seq![','] + rf + seq!['}']
    };
    assert(w =~= ks + seq![':'] + vs + tail);
    assert(forall|i: int| 0 <= i < w.len() ==> s[pos + i] == #[trigger] w[i]) by {
        assert forall|i: int| 0 <= i < w.len() implies s[pos + i] == #[trigger] w[i] by {
            lemma_char_at(s, pos, w, i);
        }
    }
    assert(ks[0] == '"');
    assert(w[0] == ks[0]);
    assert(s[pos] == '"');
    assert(w.subrange(0, ks.len() as int) =~= ks);
    lemma_subrange_at(s, pos, w, 0, ks.len() as int);
    lemma_parse_print_string(s, pos, key);
    let p1 = pos + ks.len() as int;
    assert(w[ks.len() as int] == ':');
    assert(s[p1] == ':');
    let pv = p1 + 1;
    let delim = ks.len() + 1 + vs.len() as int;
    assert(w.subrange(ks.len() as int + 1, delim) =~= vs);
    lemma_subrange_at(s, pos, w, ks.len() as int + 1, delim);
    assert(pa(s, pv) == Some((v, pv + vs.len() as int)));
    let p2 = pv + vs.len() as int;
    assert(w[delim] == tail[0]);
    if items.len() == 1 {
        assert(tail[0] == '}');
        assert(s[p2] == '}');
        assert(seq![(key, v)] =~= items);
    } else {
        assert(tail[0] == ',');
        assert(s[p2] == ',');
        assert(w.subrange(delim + 1, w.len() as int) =~= rf + seq!['}']) by {
            assert forall|i: int|
                0 <= i < rf.len() + 1 implies w[delim + 1 + i] == (rf + seq!['}'])[i] by {
                assert(w[delim + 1 + i] == tail[1 + i]);
            }
        }
        lemma_subrange_at(s, pos, w, delim + 1, w.len() as int);
        assert(s.subrange(p2 + 1, pos + w.len() as int) == w.subrange(delim + 1, w.len() as int));
        assert(obj_items_invertible(rest, pr, pa)) by {
            assert forall|i: int| 0 <= i < rest.len() implies #[trigger] pr(rest[i].1).len()
                >= 1 by {
                assert(rest[i] == items[i + 1]);
            }
            assert forall|i: int, s2: Seq<char>, p2x: int|
                #![trigger pa(s2, p2x), rest[i]]
                0 <= i < rest.len() && 0 <= p2x && p2x + pr(rest[i].1).len() <= s2.len()
                    && s2.subrange(p2x, p2x + pr(rest[i].1).len() as int) == pr(rest[i].1)
                implies pa(s2, p2x) == Some(
                (rest[i].1, p2x + pr(rest[i].1).len() as int),
            ) by {
                assert(rest[i] == items[i + 1]);
            }
        }
        lemma_parse_print_obj_fields(s, p2 + 1, rest, pr, pa);
        assert(seq![(key, v)] + rest =~= items);
    }
}

/// Parsing a printed object yields its fields back.
pub proof fn lemma_parse_print_obj<T>(
    s: Seq<char>,
    pos: int,
    items: Seq<(Seq<char>, T)>,
    pr: spec_fn(T) -> Seq<char>,
    pa: spec_fn(Seq<char>, int) -> Option<(T, int)>,
)
    requires
        0 <= pos,
        pos + spec_print_obj(items, pr).len() <= s.len(),
        s.subrange(pos, pos + spec_print_obj(items, pr).len() as int) == spec_print_obj(
            items,
            pr,
        ),
        obj_items_invertible(items, pr, pa),
    ensures
        spec_parse_obj(s, pos, pa) == Some(
            (items, pos + spec_print_obj(items, pr).len() as int),
        ),
{
    let f = spec_print_obj_fields(items, pr);
    let w = spec_print_obj(items, pr);
    lemma_char_at(s, pos, w, 0);
    assert(w[0] == '{');
    if items.len() == 0 {
        assert(f == Seq::<char>::empty());
        assert(w =~= seq!['{', '}']);
        lemma_char_at(s, pos, w, 1);
        assert(s[pos + 1] == '}');
    } else {
        lemma_char_at(s, pos, w, 1);
        assert(w[1] == f[0]);
        assert(f[0] == spec_print_string(items[0].0)[0]);
        assert(w[1] == '"');
        assert(s[pos + 1] == '"');
        assert(w.subrange(1, w.len() as int) =~= f + seq!['}']);
        lemma_subrange_at(s, pos, w, 1, w.len() as int);
        lemma_parse_print_obj_fields(s, pos + 1, items, pr, pa);
    }
}


/// Literal segments of the canonical format.
pub open spec fn lit_number() -> Seq<char> {
    "{\"Number\":"@
}

pub open spec fn lit_asset() -> Seq<char> {
    "{\"Asset\":{\"path\":"@
}

pub open spec fn lit_type_path() -> Seq<char> {
    ",\"type_path\":"@
}

pub open spec fn lit_id() -> Seq<char> {
    "{\"id\":"@
}

pub open spec fn lit_location() -> Seq<char> {
    ",\"location\":"@
}

pub open spec fn lit_value() -> Seq<char> {
    ",\"value\":"@
}

pub open spec fn lit_path() -> Seq<char> {
    "{\"path\":"@
}

pub open spec fn lit_null() -> Seq<char> {
    "null"@
}

pub open spec fn lit_component_type() -> Seq<char> {
    ",\"component_type\":"@
}

pub open spec fn lit_keyframes() -> Seq<char> {
    "{\"keyframes\":"@
}

pub open spec fn lit_mode_duration() -> Seq<char> {
    ",\"mode\":\"Constant\",\"frame_duration\":"@
}

pub open spec fn lit_slots() -> Seq<char> {
    ",\"slots\":["@
}

pub open spec fn lit_enabled() -> Seq<char> {
    "{\"enabled\":"@
}

pub open spec fn lit_true() -> Seq<char> {
    "true"@
}

pub open spec fn lit_false() -> Seq<char> {
    "false"@
}

pub open spec fn lit_frames() -> Seq<char> {
    ",\"frames\":"@
}

pub open spec fn lit_binding() -> Seq<char> {
    ",\"binding\":"@
}

pub open spec fn lit_single() -> Seq<char> {
    "{\"Single\":"@
}

pub open spec fn lit_multiple() -> Seq<char> {
    "{\"Multiple\":"@
}

/// How one raw keyframe value is written.
pub open spec fn spec_print_value(v: TrackValueModel) -> Seq<char> {
    match v {
        TrackValueModel::Number(n) => lit_number() + spec_print_int(n) + seq!['}'],
        TrackValueModel::Asset(a) => lit_asset() + spec_print_string(a.path) + lit_type_path()
            + spec_print_string(a.type_path) + seq!['}', '}'],
    }
}

/// What parsing one raw keyframe value yields; scalars must fit the
/// scalar range.
pub open spec fn spec_parse_value(s: Seq<char>, pos: int) -> Option<(TrackValueModel, int)> {
    match spec_expect(s, pos, lit_number()) {
        Some(p) => match spec_parse_int(s, p) {
            Some((n, p2)) => {
                if i64::MIN <= n <= i64::MAX {
                    match spec_expect(s, p2, seq!['}']) {
                        Some(p3) => Some((TrackValueModel::Number(n), p3)),
                        None => None,
                    }
                } else {
                    None
                }
            },
            None => None,
        },
        None => match spec_expect(s, pos, lit_asset()) {
            Some(p) => match spec_parse_string(s, p) {
                Some((path, p2)) => match spec_expect(s, p2, lit_type_path()) {
                    Some(p3) => match spec_parse_string(s, p3) {
                        Some((tp, p4)) => match spec_expect(s, p4, seq!['}', '}']) {
                            Some(p5) => Some(
                                (
                                    TrackValueModel::Asset(
                                        AssetPathModel { path, type_path: tp },
                                    ),
                                    p5,
                                ),
                            ),
                            None => None,
                        },
                        None => None,
                    },
                    None => None,
                },
                None => None,
            },
            None => None,
        },
    }
}

/// The digits of an identifier, quoted.
pub open spec fn spec_print_id(id: u128) -> Seq<char> {
    spec_print_string(spec_nat_chars(id as nat))
}

/// An identifier read back from quoted text: the text must be all
/// digits and fit the identifier range.
pub open spec fn spec_str_to_id(k: Seq<char>) -> Option<u128> {
    if k.len() >= 1 && spec_digit_run_len(k, 0) == k.len() && spec_digits_val(k) <= u128::MAX {
        Some(spec_digits_val(k) as u128)
    } else {
        None
    }
}

/// How one keyframe record is written.
pub open spec fn spec_print_keyframe(kf: KeyframeModel) -> Seq<char> {
    lit_id() + spec_print_id(kf.id) + lit_location() + spec_nat_chars(kf.location as nat)
        + lit_value() + spec_print_value(kf.value) + seq!['}']
}

/// What parsing one keyframe record yields.
pub open spec fn spec_parse_keyframe(s: Seq<char>, pos: int) -> Option<(KeyframeModel, int)> {
    match spec_expect(s, pos, lit_id()) {
        None => None,
        Some(p) => match spec_parse_string(s, p) {
            None => None,
            Some((idtext, p1)) => match spec_str_to_id(idtext) {
                None => None,
                Some(id) => match spec_expect(s, p1, lit_location()) {
                    None => None,
                    Some(p2) => match spec_parse_digits(s, p2) {
                        None => None,
                        Some((loc, p3)) => {
                            if loc > usize::MAX {
                                None
                            } else {
                                match spec_expect(s, p3, lit_value()) {
                                    None => None,
                                    Some(p4) => match spec_parse_value(s, p4) {
                                        None => None,
                                        Some((v, p5)) => match spec_expect(s, p5, seq!['}']) {
                                            None => None,
                                            Some(p6) => Some(
                                                (
                                                    KeyframeModel {
                                                        id,
                                                        location: loc as usize,
                                                        value: v,
                                                    },
                                                    p6,
                                                ),
                                            ),
                                        },
                                    },
                                }
                            }
                        },
                    },
                },
            },
        },
    }
}

/// How the slot array's items are written.
pub open spec fn spec_print_slots(slots: Seq<Option<u128>>) -> Seq<char>
    decreases slots.len(),
{
    if slots.len() == 0 {
        Seq::empty()
    } else {
        let item = match slots[0] {
            Some(id) => spec_print_id(id),
            None => lit_null(),
        };
        if slots.len() == 1 {
            item
        } else {
            item + seq![','] + spec_print_slots(slots.drop_first())
        }
    }
}

/// What parsing the slot array's items yields, up to and including
/// the closing bracket; at least one slot is required.
pub open spec fn spec_parse_slots(s: Seq<char>, pos: int) -> Option<(Seq<Option<u128>>, int)>
    decreases s.len() - pos,
{
    let item = match spec_expect(s, pos, lit_null()) {
        Some(p) => Some((None::<u128>, p)),
        None => match spec_parse_string(s, pos) {
            Some((idtext, p)) => match spec_str_to_id(idtext) {
                Some(id) => Some((Some(id), p)),
                None => None,
            },
            None => None,
        },
    };
    match item {
        None => None,
        Some((slot, p)) => {
            if !(pos < p < s.len()) {
                None
            } else if s[p] == ',' {
                match spec_parse_slots(s, p + 1) {
                    Some((rest, p2)) => Some((seq![slot] + rest, p2)),
                    None => None,
                }
            } else if s[p] == ']' {
                Some((seq![slot], p + 1))
            } else {
                None
            }
        },
    }
}

/// The keyframe map as printable object fields: identifiers become
/// quoted digit keys.
pub open spec fn spec_kf_fields(ks: Seq<(u128, KeyframeModel)>) -> Seq<(Seq<char>, KeyframeModel)> {
    Seq::new(ks.len(), |i: int| (spec_nat_chars(ks[i].0 as nat), ks[i].1))
}

/// How keyframe storage is written.
pub open spec fn spec_print_container(c: TrackDataContainerModel) -> Seq<char> {
    lit_keyframes() + spec_print_obj(
        spec_kf_fields(c.keyframes),
        |kf: KeyframeModel| spec_print_keyframe(kf),
    ) + lit_mode_duration() + spec_nat_chars(c.frame_duration as nat) + lit_slots()
        + spec_print_slots(c.slots) + seq![']', '}']
}

/// Turns parsed keyframe object fields back into the identifier-keyed
/// map, provided every key is an identifier and they are distinct.
pub open spec fn spec_fields_to_kfs(fields: Seq<(Seq<char>, KeyframeModel)>) -> Option<
    Seq<(u128, KeyframeModel)>,
> {
    let mapped = Seq::new(
        fields.len(),
        |i: int| (spec_str_to_id(fields[i].0)->0, fields[i].1),
    );
    if (forall|i: int| 0 <= i < fields.len() ==> (#[trigger] spec_str_to_id(fields[i].0))
        is Some) && assoc_unique(mapped) {
        Some(mapped)
    } else {
        None
    }
}

/// What parsing keyframe storage yields.  Success requires exactly
/// what well-formedness of the storage asks: distinct identifiers, a
/// positive frame duration whose period fits the tick range, at
/// least one slot, and no slot naming a missing keyframe.
pub open spec fn spec_parse_container(s: Seq<char>, pos: int) -> Option<(
    TrackDataContainerModel,
    int,
)> {
    match spec_expect(s, pos, lit_keyframes()) {
        None => None,
        Some(p) => match spec_parse_obj(
            s,
            p,
            |s2: Seq<char>, p2: int| spec_parse_keyframe(s2, p2),
        ) {
            None => None,
            Some((fields, p1)) => match spec_fields_to_kfs(fields) {
                None => None,
                Some(kfs) => match spec_expect(s, p1, lit_mode_duration()) {
                    None => None,
                    Some(p2) => match spec_parse_digits(s, p2) {
                        None => None,
                        Some((d, p3)) => {
                            if !(1 <= d <= u64::MAX) {
                                None
                            } else {
                                match spec_expect(s, p3, lit_slots()) {
                                    None => None,
                                    Some(p4) => match spec_parse_slots(s, p4) {
                                        None => None,
                                        Some((slots, p5)) => {
                                            if d * slots.len() > u64::MAX {
                                                None
                                            } else if !(forall|i: int|
                                                0 <= i < slots.len() ==> (
                                                #[trigger] slots[i] matches Some(id)
                                                    ==> assoc_has(kfs, id))) {
                                                None
                                            } else {
                                                match spec_expect(s, p5, seq!['}']) {
                                                    None => None,
                                                    Some(p6) => Some(
                                                        (
                                                            TrackDataContainerModel {
                                                                keyframes: kfs,
                                                                mode:
                                                                    InterpolationMode::Constant,
                                                                frame_duration: d as u64,
                                                                slots,
                                                            },
                                                            p6,
                                                        ),
                                                    ),
                                                }
                                            }
                                        },
                                    },
                                }
                            }
                        },
                    },
                },
            },
        },
    }
}

/// How a value binding is written.
pub open spec fn spec_print_binding(b: ValueBindingModel) -> Seq<char> {
    lit_path() + (match b.path {
        Some(p) => spec_print_string(p),
        None => lit_null(),
    }) + lit_component_type() + spec_print_string(b.component_type) + seq!['}']
}

/// What parsing a value binding yields.
pub open spec fn spec_parse_binding(s: Seq<char>, pos: int) -> Option<(ValueBindingModel, int)> {
    match spec_expect(s, pos, lit_path()) {
        None => None,
        Some(p) => {
            let path = match spec_expect(s, p, lit_null()) {
                Some(p1) => Some((None::<Seq<char>>, p1)),
                None => match spec_parse_string(s, p) {
                    Some((t, p1)) => Some((Some(t), p1)),
                    None => None,
                },
            };
            match path {
                None => None,
                Some((pathval, p1)) => match spec_expect(s, p1, lit_component_type()) {
                    None => None,
                    Some(p2) => match spec_parse_string(s, p2) {
                        None => None,
                        Some((ct, p3)) => match spec_expect(s, p3, seq!['}']) {
                            None => None,
                            Some(p4) => Some(
                                (ValueBindingModel { path: pathval, component_type: ct }, p4),
                            ),
                        },
                    },
                },
            }
        },
    }
}

/// How one track is written.
pub open spec fn spec_print_track(t: TrackModel) -> Seq<char> {
    lit_enabled() + (if t.enabled {
        lit_true()
    } else {
        lit_false()
    }) + lit_frames() + spec_print_container(t.frames) + lit_binding() + spec_print_binding(
        t.binding,
    ) + seq!['}']
}

/// What parsing one track yields; its storage is well-formed by
/// construction.
pub open spec fn spec_parse_track(s: Seq<char>, pos: int) -> Option<(TrackModel, int)> {
    match spec_expect(s, pos, lit_enabled()) {
        None => None,
        Some(p) => {
            let en = match spec_expect(s, p, lit_true()) {
                Some(p1) => Some((true, p1)),
                None => match spec_expect(s, p, lit_false()) {
                    Some(p1) => Some((false, p1)),
                    None => None,
                },
            };
            match en {
                None => None,
                Some((enabled, p1)) => match spec_expect(s, p1, lit_frames()) {
                    None => None,
                    Some(p2) => match spec_parse_container(s, p2) {
                        None => None,
                        Some((frames, p3)) => match spec_expect(s, p3, lit_binding()) {
                            None => None,
                            Some(p4) => match spec_parse_binding(s, p4) {
                                None => None,
                                Some((binding, p5)) => match spec_expect(s, p5, seq!['}']) {
                                    None => None,
                                    Some(p6) => Some(
                                        (TrackModel { enabled, frames, binding }, p6),
                                    ),
                                },
                            },
                        },
                    },
                },
            }
        },
    }
}

/// How one component track is written.
pub open spec fn spec_print_ctrack(ct: ComponentTrackModel) -> Seq<char> {
    match ct {
        ComponentTrackModel::Single(t) => lit_single() + spec_print_track(t) + seq!['}'],
        ComponentTrackModel::Multiple(m) => lit_multiple() + spec_print_obj(
            m,
            |t: TrackModel| spec_print_track(t),
        ) + seq!['}'],
    }
}

/// What parsing one component track yields; per-field tracks must be
/// keyed uniquely.
pub open spec fn spec_parse_ctrack(s: Seq<char>, pos: int) -> Option<(ComponentTrackModel, int)> {
    match spec_expect(s, pos, lit_single()) {
        Some(p) => match spec_parse_track(s, p) {
            None => None,
            Some((t, p1)) => match spec_expect(s, p1, seq!['}']) {
                None => None,
                Some(p2) => Some((ComponentTrackModel::Single(t), p2)),
            },
        },
        None => match spec_expect(s, pos, lit_multiple()) {
            None => None,
            Some(p) => match spec_parse_obj(
                s,
                p,
                |s2: Seq<char>, p2: int| spec_parse_track(s2, p2),
            ) {
                None => None,
                Some((fields, p1)) => {
                    if !assoc_unique(fields) {
                        None
                    } else {
                        match spec_expect(s, p1, seq!['}']) {
                            None => None,
                            Some(p2) => Some((ComponentTrackModel::Multiple(fields), p2)),
                        }
                    }
                },
            },
        },
    }
}

/// How one clip is written: an object of component tracks by target
/// type tag.
pub open spec fn spec_print_clip(e: Seq<(Seq<char>, ComponentTrackModel)>) -> Seq<char> {
    spec_print_obj(e, |ct: ComponentTrackModel| spec_print_ctrack(ct))
}

/// What parsing one clip yields; target types must be distinct.
pub open spec fn spec_parse_clip(s: Seq<char>, pos: int) -> Option<(
    Seq<(Seq<char>, ComponentTrackModel)>,
    int,
)> {
    match spec_parse_obj(s, pos, |s2: Seq<char>, p2: int| spec_parse_ctrack(s2, p2)) {
        None => None,
        Some((fields, p)) => {
            if assoc_unique(fields) {
                Some((fields, p))
            } else {
                None
            }
        },
    }
}

/// How a whole animation set is written: an object of clips by name.
pub open spec fn spec_print_set(
    a: Seq<(Seq<char>, Seq<(Seq<char>, ComponentTrackModel)>)>,
) -> Seq<char> {
    spec_print_obj(a, |e: Seq<(Seq<char>, ComponentTrackModel)>| spec_print_clip(e))
}

/// What parsing a whole animation set yields; clip names must be
/// distinct and the document must end with the set.
pub open spec fn spec_parse_set(s: Seq<char>) -> Option<
    Seq<(Seq<char>, Seq<(Seq<char>, ComponentTrackModel)>)>,
> {
    match spec_parse_obj(
        s,
        0,
        |s2: Seq<char>, p2: int| spec_parse_clip(s2, p2),
    ) {
        None => None,
        Some((fields, p)) => {
            if p == s.len() && assoc_unique(fields) {
                Some(fields)
            } else {
                None
            }
        },
    }
}


/// A raw value model that an executable value can hold: its scalar
/// fits the scalar range.
pub open spec fn value_bounded(v: TrackValueModel) -> bool {
    v matches TrackValueModel::Number(n) ==> i64::MIN <= n <= i64::MAX
}

/// Parsing a printed raw value yields it back.
#[verifier::rlimit(100)]
#[verifier::spinoff_prover]
pub proof fn lemma_rt_value(s: Seq<char>, pos: int, v: TrackValueModel)
    requires
        value_bounded(v),
        0 <= pos,
        pos + spec_print_value(v).len() <= s.len(),
        s.subrange(pos, pos + spec_print_value(v).len() as int) == spec_print_value(v),
    ensures
        spec_parse_value(s, pos) == Some((v, pos + spec_print_value(v).len() as int)),
{
    let w = spec_print_value(v);
    reveal_strlit("{\"Number\":");
    reveal_strlit("{\"Asset\":{\"path\":");
    reveal_strlit(",\"type_path\":");
    match v {
        TrackValueModel::Number(n) => {
            let ln = lit_number();
            let ns = spec_print_int(n);
            assert(w == ln + ns + seq!['}']);
            assert(w.subrange(0, ln.len() as int) =~= ln);
            lemma_subrange_at(s, pos, w, 0, ln.len() as int);
            assert(spec_expect(s, pos, ln) == Some(pos + ln.len() as int));
            let p = pos + ln.len() as int;
            assert(w.subrange(ln.len() as int, ln.len() + ns.len() as int) =~= ns);
            lemma_subrange_at(s, pos, w, ln.len() as int, ln.len() + ns.len() as int);
            lemma_char_at(s, pos, w, ln.len() + ns.len() as int);
            assert(w[ln.len() + ns.len() as int] == '}');
            assert(!is_digit('}'));
            lemma_parse_print_int(s, p, n);
            let p2 = p + ns.len() as int;
            assert(s.subrange(p2, p2 + 1) =~= seq!['}']) by {
                assert(s[p2] == '}');
                assert(s.subrange(p2, p2 + 1)[0] == s[p2]);
            }
            assert(spec_expect(s, p2, seq!['}']) == Some(p2 + 1));
        },
        TrackValueModel::Asset(a) => {
            let la = lit_asset();
            let ps = spec_print_string(a.path);
            let lt = lit_type_path();
            let ts = spec_print_string(a.type_path);
            assert(w == la + ps + lt + ts + seq!['}', '}']);
            assert(spec_expect(s, pos, lit_number()) is None) by {
                if spec_expect(s, pos, lit_number()) is Some {
                    assert(s.subrange(pos, pos + lit_number().len() as int) == lit_number());
                    assert(s.subrange(pos, pos + lit_number().len() as int)[2] == s[pos + 2]);
                    lemma_char_at(s, pos, w, 2);
                    assert(w[2] == la[2]);
                }
            }
            assert(w.subrange(0, la.len() as int) =~= la);
            lemma_subrange_at(s, pos, w, 0, la.len() as int);
            assert(spec_expect(s, pos, la) == Some(pos + la.len() as int));
            let b1 = la.len() as int;
            let b2 = b1 + ps.len() as int;
            let b3 = b2 + lt.len() as int;
            let b4 = b3 + ts.len() as int;
            assert(w.subrange(b1, b2) =~= ps);
            lemma_subrange_at(s, pos, w, b1, b2);
            lemma_parse_print_string(s, pos + b1, a.path);
            assert(w.subrange(b2, b3) =~= lt);
            lemma_subrange_at(s, pos, w, b2, b3);
            assert(spec_expect(s, pos + b2, lt) == Some(pos + b3));
            assert(w.subrange(b3, b4) =~= ts);
            lemma_subrange_at(s, pos, w, b3, b4);
            lemma_parse_print_string(s, pos + b3, a.type_path);
            assert(w.subrange(b4, b4 + 2) =~= seq!['}', '}']);
            lemma_subrange_at(s, pos, w, b4, b4 + 2);
            assert(spec_expect(s, pos + b4, seq!['}', '}']) == Some(pos + b4 + 2));
        },
    }
}

/// An identifier's printed digits read back as the identifier.
pub proof fn lemma_str_to_id(id: u128)
    ensures
        spec_str_to_id(spec_nat_chars(id as nat)) == Some(id),
{
    let k = spec_nat_chars(id as nat);
    lemma_nat_chars(id as nat);
    crate::chars::lemma_digit_run_over(k, 0, k.len() as int);
}

/// Parsing a printed keyframe record yields it back.
#[verifier::rlimit(100)]
#[verifier::spinoff_prover]
pub proof fn lemma_rt_keyframe(s: Seq<char>, pos: int, kf: KeyframeModel)
    requires
        value_bounded(kf.value),
        0 <= pos,
        pos + spec_print_keyframe(kf).len() <= s.len(),
        s.subrange(pos, pos + spec_print_keyframe(kf).len() as int) == spec_print_keyframe(kf),
    ensures
        spec_parse_keyframe(s, pos) == Some((kf, pos + spec_print_keyframe(kf).len() as int)),
{
    let w = spec_print_keyframe(kf);
    reveal_strlit("{\"id\":");
    reveal_strlit(",\"location\":");
    reveal_strlit(",\"value\":");
    let l1 = lit_id();
    let ids = spec_print_id(kf.id);
    let l2 = lit_location();
    let locs = spec_nat_chars(kf.location as nat);
    let l3 = lit_value();
    let vs = spec_print_value(kf.value);
    assert(w == l1 + ids + l2 + locs + l3 + vs + seq!['}']);
    let b1 = l1.len() as int;
    let b2 = b1 + ids.len() as int;
    let b3 = b2 + l2.len() as int;
    let b4 = b3 + locs.len() as int;
    let b5 = b4 + l3.len() as int;
    let b6 = b5 + vs.len() as int;
    assert(w.subrange(0, b1) =~= l1);
    lemma_subrange_at(s, pos, w, 0, b1);
    assert(spec_expect(s, pos, l1) == Some(pos + b1));
    assert(w.subrange(b1, b2) =~= ids);
    lemma_subrange_at(s, pos, w, b1, b2);
    lemma_parse_print_string(s, pos + b1, spec_nat_chars(kf.id as nat));
    lemma_str_to_id(kf.id);
    assert(w.subrange(b2, b3) =~= l2);
    lemma_subrange_at(s, pos, w, b2, b3);
    assert(spec_expect(s, pos + b2, l2) == Some(pos + b3));
    assert(w.subrange(b3, b4) =~= locs);
    lemma_subrange_at(s, pos, w, b3, b4);
    lemma_char_at(s, pos, w, b4);
    assert(w[b4] == l3[0]);
    assert(l3[0] == ',');
    assert(!is_digit(','));
    crate::chars::lemma_parse_print_digits(s, pos + b3, kf.location as nat);
    assert(w.subrange(b4, b5) =~= l3);
    lemma_subrange_at(s, pos, w, b4, b5);
    assert(spec_expect(s, pos + b4, l3) == Some(pos + b5));
    assert(w.subrange(b5, b6) =~= vs);
    lemma_subrange_at(s, pos, w, b5, b6);
    lemma_rt_value(s, pos + b5, kf.value);
    lemma_char_at(s, pos, w, b6);
    assert(w[b6] == '}');
    assert(s.subrange(pos + b6, pos + b6 + 1) =~= seq!['}']) by {
        assert(s.subrange(pos + b6, pos + b6 + 1)[0] == s[pos + b6]);
    }
    assert(spec_expect(s, pos + b6, seq!['}']) == Some(pos + b6 + 1));
}


/// Parsing printed slot items, followed by the closing bracket,
/// yields the slots back.
pub proof fn lemma_rt_slots(s: Seq<char>, pos: int, slots: Seq<Option<u128>>)
    requires
        0 <= pos,
        slots.len() >= 1,
        pos + spec_print_slots(slots).len() + 1 <= s.len(),
        s.subrange(pos, pos + spec_print_slots(slots).len() + 1) == spec_print_slots(slots)
            + seq![']'],
    ensures
        spec_parse_slots(s, pos) == Some((slots, pos + spec_print_slots(slots).len() + 1)),
    decreases slots.len(),
{
    reveal_strlit("null");
    let f = spec_print_slots(slots);
    let w = f + seq![']'];
    let items = spec_print_slots(slots);
    let head: Seq<char> = match slots[0] {
        Some(id) => spec_print_id(id),
        None => lit_null(),
    };
    let rest = slots.drop_first();
    let tail: Seq<char> = if slots.len() == 1 {
        seq![']']
    } else {
        seq![','] + spec_print_slots(rest) + seq![']']
    };
    assert(w =~= head + tail);
    assert(forall|i: int| 0 <= i < w.len() ==> s[pos + i] == #[trigger] w[i]) by {
        assert forall|i: int| 0 <= i < w.len() implies s[pos + i] == #[trigger] w[i] by {
            lemma_char_at(s, pos, w, i);
        }
    }
    assert(w.subrange(0, head.len() as int) =~= head);
    lemma_subrange_at(s, pos, w, 0, head.len() as int);
    let p = pos + head.len() as int;
    match slots[0] {
        Some(id) => {
            assert(spec_expect(s, pos, lit_null()) is None) by {
                if spec_expect(s, pos, lit_null()) is Some {
                    assert(s.subrange(pos, pos + lit_null().len() as int)[0] == s[pos]);
                    assert(s[pos] == head[0]);
                    assert(head[0] == '"');
                }
            }
            lemma_parse_print_string(s, pos, spec_nat_chars(id as nat));
            lemma_str_to_id(id);
        },
        None => {
            assert(spec_expect(s, pos, lit_null()) == Some(p));
        },
    }
    assert(w[head.len() as int] == tail[0]);
    if slots.len() == 1 {
        assert(s[p] == ']');
        assert(seq![slots[0]] =~= slots);
    } else {
        assert(s[p] == ',');
        let rf = spec_print_slots(rest);
        assert(w.subrange(head.len() as int + 1, w.len() as int) =~= rf + seq![']']) by {
            assert forall|i: int|
                0 <= i < rf.len() + 1 implies w[head.len() + 1 + i] == (rf + seq![']'])[i] by {
                assert(w[head.len() + 1 + i] == tail[1 + i]);
            }
        }
        lemma_subrange_at(s, pos, w, head.len() as int + 1, w.len() as int);
        lemma_rt_slots(s, p + 1, rest);
        assert(seq![slots[0]] + rest =~= slots);
    }
}

/// A keyframe storage model that executable storage can hold.
pub open spec fn container_bounded(c: TrackDataContainerModel) -> bool {
    forall|i: int|
        0 <= i < c.keyframes.len() ==> value_bounded(#[trigger] c.keyframes[i].1.value)
}

/// Parsing printed keyframe storage yields it back.
#[verifier::rlimit(100)]
#[verifier::spinoff_prover]
pub proof fn lemma_rt_container(s: Seq<char>, pos: int, c: TrackDataContainerModel)
    requires
        crate::track::container_wf(c),
        container_bounded(c),
        0 <= pos,
        pos + spec_print_container(c).len() <= s.len(),
        s.subrange(pos, pos + spec_print_container(c).len() as int) == spec_print_container(c),
    ensures
        spec_parse_container(s, pos) == Some((c, pos + spec_print_container(c).len() as int)),
{
    reveal_strlit(",\"slots\":[");
    let w = spec_print_container(c);
    let l1 = lit_keyframes();
    let kfpr = |kf: KeyframeModel| spec_print_keyframe(kf);
    let kfpa = |s2: Seq<char>, p2: int| spec_parse_keyframe(s2, p2);
    let items = spec_kf_fields(c.keyframes);
    let os = spec_print_obj(items, kfpr);
    let l2 = lit_mode_duration();
    let ds = spec_nat_chars(c.frame_duration as nat);
    let l3 = lit_slots();
    let ss = spec_print_slots(c.slots);
    assert(w == l1 + os + l2 + ds + l3 + ss + seq![']', '}']);
    let b1 = l1.len() as int;
    let b2 = b1 + os.len() as int;
    let b3 = b2 + l2.len() as int;
    let b4 = b3 + ds.len() as int;
    let b5 = b4 + l3.len() as int;
    let b6 = b5 + ss.len() as int;
    assert(w.subrange(0, b1) =~= l1);
    lemma_subrange_at(s, pos, w, 0, b1);
    assert(spec_expect(s, pos, l1) == Some(pos + b1));
    assert(w.subrange(b1, b2) =~= os);
    lemma_subrange_at(s, pos, w, b1, b2);
    assert(obj_items_invertible(items, kfpr, kfpa)) by {
        assert forall|i: int| 0 <= i < items.len() implies #[trigger] kfpr(items[i].1).len()
            >= 1 by {
            assert(kfpr(items[i].1) == spec_print_keyframe(items[i].1));
        }
        assert forall|i: int, s2: Seq<char>, p2: int|
            #![trigger kfpa(s2, p2), items[i]]
            0 <= i < items.len() && 0 <= p2 && p2 + kfpr(items[i].1).len() <= s2.len()
                && s2.subrange(p2, p2 + kfpr(items[i].1).len() as int) == kfpr(items[i].1)
            implies kfpa(s2, p2) == Some(
            (items[i].1, p2 + kfpr(items[i].1).len() as int),
        ) by {
            assert(items[i].1 == c.keyframes[i].1);
            assert(value_bounded(c.keyframes[i].1.value));
            lemma_rt_keyframe(s2, p2, items[i].1);
        }
    }
    lemma_parse_print_obj(s, pos + b1, items, kfpr, kfpa);
    assert(spec_fields_to_kfs(items) == Some(c.keyframes)) by {
        assert forall|i: int| 0 <= i < items.len() implies (#[trigger] spec_str_to_id(
            items[i].0,
        )) is Some by {
            lemma_str_to_id(c.keyframes[i].0);
        }
        let mapped = Seq::new(
            items.len(),
            |i: int| (spec_str_to_id(items[i].0)->0, items[i].1),
        );
        assert forall|i: int| 0 <= i < items.len() implies mapped[i] == c.keyframes[i] by {
            lemma_str_to_id(c.keyframes[i].0);
        }
        assert(mapped =~= c.keyframes);
    }
    assert(w.subrange(b2, b3) =~= l2);
    lemma_subrange_at(s, pos, w, b2, b3);
    assert(spec_expect(s, pos + b2, l2) == Some(pos + b3));
    assert(w.subrange(b3, b4) =~= ds);
    lemma_subrange_at(s, pos, w, b3, b4);
    lemma_char_at(s, pos, w, b4);
    assert(w[b4] == l3[0]);
    assert(l3[0] == ',');
    assert(!is_digit(','));
    crate::chars::lemma_parse_print_digits(s, pos + b3, c.frame_duration as nat);
    assert(w.subrange(b4, b5) =~= l3);
    lemma_subrange_at(s, pos, w, b4, b5);
    assert(spec_expect(s, pos + b4, l3) == Some(pos + b5));
    assert(w.subrange(b5, b6 + 1) =~= ss + seq![']']);
    lemma_subrange_at(s, pos, w, b5, b6 + 1);
    lemma_rt_slots(s, pos + b5, c.slots);
    lemma_char_at(s, pos, w, b6 + 1);
    assert(w[b6 + 1] == '}');
    assert(s.subrange(pos + b6 + 1, pos + b6 + 2) =~= seq!['}']) by {
        assert(s.subrange(pos + b6 + 1, pos + b6 + 2)[0] == s[pos + b6 + 1]);
    }
    assert(spec_expect(s, pos + b6 + 1, seq!['}']) == Some(pos + b6 + 2));
}

/// Parsing a printed value binding yields it back.
pub proof fn lemma_rt_binding(s: Seq<char>, pos: int, b: ValueBindingModel)
    requires
        0 <= pos,
        pos + spec_print_binding(b).len() <= s.len(),
        s.subrange(pos, pos + spec_print_binding(b).len() as int) == spec_print_binding(b),
    ensures
        spec_parse_binding(s, pos) == Some((b, pos + spec_print_binding(b).len() as int)),
{
    reveal_strlit("null");
    let w = spec_print_binding(b);
    let l1 = lit_path();
    let ps: Seq<char> = match b.path {
        Some(p) => spec_print_string(p),
        None => lit_null(),
    };
    let l2 = lit_component_type();
    let cs = spec_print_string(b.component_type);
    assert(w == l1 + ps + l2 + cs + seq!['}']);
    let b1 = l1.len() as int;
    let b2 = b1 + ps.len() as int;
    let b3 = b2 + l2.len() as int;
    let b4 = b3 + cs.len() as int;
    assert(w.subrange(0, b1) =~= l1);
    lemma_subrange_at(s, pos, w, 0, b1);
    assert(spec_expect(s, pos, l1) == Some(pos + b1));
    assert(w.subrange(b1, b2) =~= ps);
    lemma_subrange_at(s, pos, w, b1, b2);
    match b.path {
        Some(p) => {
            assert(spec_expect(s, pos + b1, lit_null()) is None) by {
                if spec_expect(s, pos + b1, lit_null()) is Some {
                    assert(s.subrange(pos + b1, pos + b1 + lit_null().len() as int)[0] == s[pos
                        + b1]);
                    lemma_char_at(s, pos, w, b1);
                    assert(w[b1] == ps[0]);
                    assert(ps[0] == '"');
                }
            }
            lemma_parse_print_string(s, pos + b1, p);
        },
        None => {
            assert(spec_expect(s, pos + b1, lit_null()) == Some(pos + b2));
        },
    }
    assert(w.subrange(b2, b3) =~= l2);
    lemma_subrange_at(s, pos, w, b2, b3);
    assert(spec_expect(s, pos + b2, l2) == Some(pos + b3));
    assert(w.subrange(b3, b4) =~= cs);
    lemma_subrange_at(s, pos, w, b3, b4);
    lemma_parse_print_string(s, pos + b3, b.component_type);
    lemma_char_at(s, pos, w, b4);
    assert(w[b4] == '}');
    assert(s.subrange(pos + b4, pos + b4 + 1) =~= seq!['}']) by {
        assert(s.subrange(pos + b4, pos + b4 + 1)[0] == s[pos + b4]);
    }
    assert(spec_expect(s, pos + b4, seq!['}']) == Some(pos + b4 + 1));
}

/// Parsing a printed track yields it back.
#[verifier::rlimit(100)]
#[verifier::spinoff_prover]
pub proof fn lemma_rt_track(s: Seq<char>, pos: int, t: TrackModel)
    requires
        crate::track::track_wf(t),
        container_bounded(t.frames),
        0 <= pos,
        pos + spec_print_track(t).len() <= s.len(),
        s.subrange(pos, pos + spec_print_track(t).len() as int) == spec_print_track(t),
    ensures
        spec_parse_track(s, pos) == Some((t, pos + spec_print_track(t).len() as int)),
{
    reveal_strlit("true");
    reveal_strlit("false");
    let w = spec_print_track(t);
    let l1 = lit_enabled();
    let es: Seq<char> = if t.enabled {
        lit_true()
    } else {
        lit_false()
    };
    let l2 = lit_frames();
    let fs = spec_print_container(t.frames);
    let l3 = lit_binding();
    let bs = spec_print_binding(t.binding);
    assert(w == l1 + es + l2 + fs + l3 + bs + seq!['}']);
    let b1 = l1.len() as int;
    let b2 = b1 + es.len() as int;
    let b3 = b2 + l2.len() as int;
    let b4 = b3 + fs.len() as int;
    let b5 = b4 + l3.len() as int;
    let b6 = b5 + bs.len() as int;
    assert(w.subrange(0, b1) =~= l1);
    lemma_subrange_at(s, pos, w, 0, b1);
    assert(spec_expect(s, pos, l1) == Some(pos + b1));
    assert(w.subrange(b1, b2) =~= es);
    lemma_subrange_at(s, pos, w, b1, b2);
    if t.enabled {
        assert(spec_expect(s, pos + b1, lit_true()) == Some(pos + b2));
    } else {
        assert(spec_expect(s, pos + b1, lit_false()) == Some(pos + b2));
        assert(spec_expect(s, pos + b1, lit_true()) is None) by {
            if spec_expect(s, pos + b1, lit_true()) is Some {
                assert(s.subrange(pos + b1, pos + b1 + lit_true().len() as int)[0] == s[pos
                    + b1]);
                lemma_char_at(s, pos, w, b1);
                assert(w[b1] == es[0]);
            }
        }
    }
    assert(w.subrange(b2, b3) =~= l2);
    lemma_subrange_at(s, pos, w, b2, b3);
    assert(spec_expect(s, pos + b2, l2) == Some(pos + b3));
    assert(w.subrange(b3, b4) =~= fs);
    lemma_subrange_at(s, pos, w, b3, b4);
    lemma_rt_container(s, pos + b3, t.frames);
    assert(w.subrange(b4, b5) =~= l3);
    lemma_subrange_at(s, pos, w, b4, b5);
    assert(spec_expect(s, pos + b4, l3) == Some(pos + b5));
    assert(w.subrange(b5, b6) =~= bs);
    lemma_subrange_at(s, pos, w, b5, b6);
    lemma_rt_binding(s, pos + b5, t.binding);
    lemma_char_at(s, pos, w, b6);
    assert(w[b6] == '}');
    assert(s.subrange(pos + b6, pos + b6 + 1) =~= seq!['}']) by {
        assert(s.subrange(pos + b6, pos + b6 + 1)[0] == s[pos + b6]);
    }
    assert(spec_expect(s, pos + b6, seq!['}']) == Some(pos + b6 + 1));
}

/// A component track model that an executable component track can
/// hold.
pub open spec fn ctrack_bounded(ct: ComponentTrackModel) -> bool {
    match ct {
        ComponentTrackModel::Single(t) => container_bounded(t.frames),
        ComponentTrackModel::Multiple(m) => forall|i: int|
            0 <= i < m.len() ==> container_bounded((#[trigger] m[i].1).frames),
    }
}

/// Parsing a printed component track yields it back.
#[verifier::rlimit(100)]
#[verifier::spinoff_prover]
pub proof fn lemma_rt_ctrack(s: Seq<char>, pos: int, ct: ComponentTrackModel)
    requires
        crate::track::component_track_wf(ct),
        ctrack_bounded(ct),
        0 <= pos,
        pos + spec_print_ctrack(ct).len() <= s.len(),
        s.subrange(pos, pos + spec_print_ctrack(ct).len() as int) == spec_print_ctrack(ct),
    ensures
        spec_parse_ctrack(s, pos) == Some((ct, pos + spec_print_ctrack(ct).len() as int)),
{
    reveal_strlit("{\"Single\":");
    reveal_strlit("{\"Multiple\":");
    let w = spec_print_ctrack(ct);
    match ct {
        ComponentTrackModel::Single(t) => {
            let l1 = lit_single();
            let ts = spec_print_track(t);
            assert(w == l1 + ts + seq!['}']);
            let b1 = l1.len() as int;
            let b2 = b1 + ts.len() as int;
            assert(w.subrange(0, b1) =~= l1);
            lemma_subrange_at(s, pos, w, 0, b1);
            assert(spec_expect(s, pos, l1) == Some(pos + b1));
            assert(w.subrange(b1, b2) =~= ts);
            lemma_subrange_at(s, pos, w, b1, b2);
            lemma_rt_track(s, pos + b1, t);
            lemma_char_at(s, pos, w, b2);
            assert(w[b2] == '}');
            assert(s.subrange(pos + b2, pos + b2 + 1) =~= seq!['}']) by {
                assert(s.subrange(pos + b2, pos + b2 + 1)[0] == s[pos + b2]);
            }
            assert(spec_expect(s, pos + b2, seq!['}']) == Some(pos + b2 + 1));
        },
        ComponentTrackModel::Multiple(m) => {
            let l1 = lit_multiple();
            let tpr = |t: TrackModel| spec_print_track(t);
            let tpa = |s2: Seq<char>, p2: int| spec_parse_track(s2, p2);
            let os = spec_print_obj(m, tpr);
            assert(w == l1 + os + seq!['}']);
            assert(spec_expect(s, pos, lit_single()) is None) by {
                if spec_expect(s, pos, lit_single()) is Some {
                    assert(s.subrange(pos, pos + lit_single().len() as int)[2] == s[pos + 2]);
                    lemma_char_at(s, pos, w, 2);
                    assert(w[2] == l1[2]);
                }
            }
            let b1 = l1.len() as int;
            let b2 = b1 + os.len() as int;
            assert(w.subrange(0, b1) =~= l1);
            lemma_subrange_at(s, pos, w, 0, b1);
            assert(spec_expect(s, pos, l1) == Some(pos + b1));
            assert(w.subrange(b1, b2) =~= os);
            lemma_subrange_at(s, pos, w, b1, b2);
            assert(obj_items_invertible(m, tpr, tpa)) by {
                assert forall|i: int| 0 <= i < m.len() implies #[trigger] tpr(m[i].1).len()
                    >= 1 by {
                    assert(tpr(m[i].1) == spec_print_track(m[i].1));
                }
                assert forall|i: int, s2: Seq<char>, p2: int|
                    #![trigger tpa(s2, p2), m[i]]
                    0 <= i < m.len() && 0 <= p2 && p2 + tpr(m[i].1).len() <= s2.len()
                        && s2.subrange(p2, p2 + tpr(m[i].1).len() as int) == tpr(m[i].1)
                    implies tpa(s2, p2) == Some((m[i].1, p2 + tpr(m[i].1).len() as int)) by {
                    assert(crate::track::track_wf(m[i].1));
                    assert(container_bounded(m[i].1.frames));
                    lemma_rt_track(s2, p2, m[i].1);
                }
            }
            lemma_parse_print_obj(s, pos + b1, m, tpr, tpa);
            lemma_char_at(s, pos, w, b2);
            assert(w[b2] == '}');
            assert(s.subrange(pos + b2, pos + b2 + 1) =~= seq!['}']) by {
                assert(s.subrange(pos + b2, pos + b2 + 1)[0] == s[pos + b2]);
            }
            assert(spec_expect(s, pos + b2, seq!['}']) == Some(pos + b2 + 1));
        },
    }
}

/// A clip model that an executable clip can hold.
pub open spec fn clip_bounded(e: Seq<(Seq<char>, ComponentTrackModel)>) -> bool {
    forall|i: int| 0 <= i < e.len() ==> ctrack_bounded(#[trigger] e[i].1)
}

/// Parsing a printed clip yields it back.
pub proof fn lemma_rt_clip(s: Seq<char>, pos: int, e: Seq<(Seq<char>, ComponentTrackModel)>)
    requires
        crate::entity::entity_animation_wf(e),
        clip_bounded(e),
        0 <= pos,
        pos + spec_print_clip(e).len() <= s.len(),
        s.subrange(pos, pos + spec_print_clip(e).len() as int) == spec_print_clip(e),
    ensures
        spec_parse_clip(s, pos) == Some((e, pos + spec_print_clip(e).len() as int)),
{
    let cpr = |ct: ComponentTrackModel| spec_print_ctrack(ct);
    let cpa = |s2: Seq<char>, p2: int| spec_parse_ctrack(s2, p2);
    assert(obj_items_invertible(e, cpr, cpa)) by {
        assert forall|i: int| 0 <= i < e.len() implies #[trigger] cpr(e[i].1).len() >= 1 by {
            assert(cpr(e[i].1) == spec_print_ctrack(e[i].1));
            match e[i].1 {
                ComponentTrackModel::Single(_) => {},
                ComponentTrackModel::Multiple(_) => {},
            }
        }
        assert forall|i: int, s2: Seq<char>, p2: int|
            #![trigger cpa(s2, p2), e[i]]
            0 <= i < e.len() && 0 <= p2 && p2 + cpr(e[i].1).len() <= s2.len() && s2.subrange(
                p2,
                p2 + cpr(e[i].1).len() as int,
            ) == cpr(e[i].1) implies cpa(s2, p2) == Some(
            (e[i].1, p2 + cpr(e[i].1).len() as int),
        ) by {
            assert(crate::track::component_track_wf(e[i].1));
            assert(ctrack_bounded(e[i].1));
            lemma_rt_ctrack(s2, p2, e[i].1);
        }
    }
    lemma_parse_print_obj(s, pos, e, cpr, cpa);
}

/// An animation set model that an executable set can hold.
pub open spec fn set_bounded(a: Seq<(Seq<char>, Seq<(Seq<char>, ComponentTrackModel)>)>) -> bool {
    forall|i: int| 0 <= i < a.len() ==> clip_bounded(#[trigger] a[i].1)
}

/// Parsing a printed animation set yields it back: the round trip
/// through the persisted format keeps every clip name, target type
/// tag, track shape and keyframe, exactly.
pub proof fn lemma_rt_set(a: Seq<(Seq<char>, Seq<(Seq<char>, ComponentTrackModel)>)>)
    requires
        crate::entity::entity_animations_wf(a),
        set_bounded(a),
    ensures
        spec_parse_set(spec_print_set(a)) == Some(a),
{
    let s = spec_print_set(a);
    let epr = |e: Seq<(Seq<char>, ComponentTrackModel)>| spec_print_clip(e);
    let epa = |s2: Seq<char>, p2: int| spec_parse_clip(s2, p2);
    assert(s.subrange(0, s.len() as int) =~= spec_print_set(a));
    assert(obj_items_invertible(a, epr, epa)) by {
        assert forall|i: int| 0 <= i < a.len() implies #[trigger] epr(a[i].1).len() >= 1 by {
            assert(epr(a[i].1) == spec_print_clip(a[i].1));
        }
        assert forall|i: int, s2: Seq<char>, p2: int|
            #![trigger epa(s2, p2), a[i]]
            0 <= i < a.len() && 0 <= p2 && p2 + epr(a[i].1).len() <= s2.len() && s2.subrange(
                p2,
                p2 + epr(a[i].1).len() as int,
            ) == epr(a[i].1) implies epa(s2, p2) == Some(
            (a[i].1, p2 + epr(a[i].1).len() as int),
        ) by {
            assert(crate::entity::entity_animation_wf(a[i].1));
            assert(clip_bounded(a[i].1));
            lemma_rt_clip(s2, p2, a[i].1);
        }
    }
    lemma_parse_print_obj(s, 0, a, epr, epa);
}


/// Escaping text that holds no quote and no backslash leaves it as
/// it is.
pub proof fn lemma_escape_plain(x: Seq<char>)
    requires
        forall|i: int| 0 <= i < x.len() ==> !((#[trigger] x[i]) == '"' || x[i] == '\\'),
    ensures
        spec_escape(x) == x,
    decreases x.len(),
{
    if x.len() == 0 {
        assert(spec_escape(x) =~= x);
    } else {
        lemma_escape_plain(x.drop_first());
        assert(spec_escape(x) =~= x) by {
            assert(spec_escape(x) == seq![x[0]] + x.drop_first());
            assert(forall|i: int|
                0 <= i < x.len() ==> (seq![x[0]] + x.drop_first())[i] == #[trigger] x[i]);
        }
    }
}

/// The printed digits of an identifier escape to themselves.
pub proof fn lemma_id_escape(id: u128)
    ensures
        spec_print_id(id) == seq!['"'] + spec_nat_chars(id as nat) + seq!['"'],
{
    let k = spec_nat_chars(id as nat);
    lemma_nat_chars(id as nat);
    assert forall|i: int| 0 <= i < k.len() implies !((#[trigger] k[i]) == '"' || k[i]
        == '\\') by {
        assert(is_digit(k[i]));
    }
    lemma_escape_plain(k);
}

/// Appends a quoted, escaped string.
pub fn print_string_to(out: &mut Vec<char>, x: &String)
    ensures
        final(out)@ == old(out)@ + spec_print_string(x@),
{
    out.push('"');
    crate::chars::print_str_content(out, x);
    out.push('"');
    proof {
        assert(out@ =~= old(out)@ + spec_print_string(x@));
    }
}

/// Appends a quoted identifier.
pub fn print_id_to(out: &mut Vec<char>, id: u128)
    ensures
        final(out)@ == old(out)@ + spec_print_id(id),
{
    out.push('"');
    let ds = crate::chars::print_u128(id);
    crate::chars::push_chars(out, &ds);
    out.push('"');
    proof {
        lemma_id_escape(id);
        assert(out@ =~= old(out)@ + spec_print_id(id));
    }
}

/// Appends a signed decimal scalar.
pub fn print_i64_to(out: &mut Vec<char>, n: i64)
    ensures
        final(out)@ == old(out)@ + spec_print_int(n as int),
{
    if n < 0 {
        out.push('-');
        let mag = (-(n as i128)) as u128;
        let ds = crate::chars::print_u128(mag);
        crate::chars::push_chars(out, &ds);
        proof {
            assert(out@ =~= old(out)@ + spec_print_int(n as int));
        }
    } else {
        let ds = crate::chars::print_u128(n as u128);
        crate::chars::push_chars(out, &ds);
        proof {
            assert(out@ =~= old(out)@ + spec_print_int(n as int));
        }
    }
}

/// Appends one raw keyframe value.
pub fn print_value_to(out: &mut Vec<char>, v: &TrackValue)
    ensures
        final(out)@ == old(out)@ + spec_print_value(v@),
{
    match v {
        TrackValue::Number(n) => {
            crate::chars::push_lit(out, "{\"Number\":");
            print_i64_to(out, *n);
            out.push('}');
            proof {
                assert(out@ =~= old(out)@ + spec_print_value(v@));
            }
        },
        TrackValue::Asset(a) => {
            crate::chars::push_lit(out, "{\"Asset\":{\"path\":");
            print_string_to(out, &a.path);
            crate::chars::push_lit(out, ",\"type_path\":");
            print_string_to(out, &a.type_path.0);
            out.push('}');
            out.push('}');
            proof {
                assert(out@ =~= old(out)@ + spec_print_value(v@));
            }
        },
    }
}

/// Appends one keyframe record.
pub fn print_keyframe_to(out: &mut Vec<char>, kf: &Keyframe)
    ensures
        final(out)@ == old(out)@ + spec_print_keyframe(kf@),
{
    crate::chars::push_lit(out, "{\"id\":");
    print_id_to(out, kf.id);
    crate::chars::push_lit(out, ",\"location\":");
    let ds = crate::chars::print_u128(kf.location as u128);
    crate::chars::push_chars(out, &ds);
    crate::chars::push_lit(out, ",\"value\":");
    print_value_to(out, &kf.value);
    out.push('}');
    proof {
        assert(out@ =~= old(out)@ + spec_print_keyframe(kf@));
    }
}

/// Appends the fields of the keyframe object from position `i` on,
/// with the closing brace left to the caller.
fn print_kf_fields_to(out: &mut Vec<char>, m: &IdMap<Keyframe>, i: usize)
    requires
        i < m@.len(),
    ensures
        final(out)@ == old(out)@ + spec_print_obj_fields(
            spec_kf_fields(m@).skip(i as int),
            |kf: KeyframeModel| spec_print_keyframe(kf),
        ),
    decreases m@.len() - i,
{
    let ghost fields = spec_kf_fields(m@).skip(i as int);
    let ghost kfpr = |kf: KeyframeModel| spec_print_keyframe(kf);
    proof {
        assert(fields[0] == spec_kf_fields(m@)[i as int]);
    }
    let id = m.key_at(i);
    let kf = m.val_at(i);
    print_id_to(out, id);
    out.push(':');
    print_keyframe_to(out, kf);
    let n = m.len();
    if i + 1 < n {
        out.push(',');
        print_kf_fields_to(out, m, i + 1);
        proof {
            assert(spec_kf_fields(m@).skip(i as int).drop_first() =~= spec_kf_fields(
                m@,
            ).skip(i + 1));
            assert(out@ =~= old(out)@ + spec_print_obj_fields(fields, kfpr));
        }
    } else {
        proof {
            assert(fields.len() == 1);
            assert(out@ =~= old(out)@ + spec_print_obj_fields(fields, kfpr));
        }
    }
}

/// Appends keyframe storage.
pub fn print_container_to(out: &mut Vec<char>, c: &TrackDataContainer)
    ensures
        final(out)@ == old(out)@ + spec_print_container(c@),
{
    let ghost kfpr = |kf: KeyframeModel| spec_print_keyframe(kf);
    crate::chars::push_lit(out, "{\"keyframes\":");
    out.push('{');
    if c.keyframes.len() > 0 {
        print_kf_fields_to(out, &c.keyframes, 0);
        proof {
            assert(spec_kf_fields(c.keyframes@).skip(0) =~= spec_kf_fields(c.keyframes@));
        }
    } else {
        proof {
            assert(spec_kf_fields(c.keyframes@) =~= Seq::<(Seq<char>, KeyframeModel)>::empty());
            assert(spec_print_obj_fields(spec_kf_fields(c.keyframes@), kfpr)
                == Seq::<char>::empty());
        }
    }
    out.push('}');
    crate::chars::push_lit(out, ",\"mode\":\"Constant\",\"frame_duration\":");
    let ds = crate::chars::print_u128(c.frame_duration as u128);
    crate::chars::push_chars(out, &ds);
    crate::chars::push_lit(out, ",\"slots\":[");
    let ghost mid = out@;
    proof {
        assert(c.slots@.skip(0) =~= c.slots@);
    }
    let n = c.slots.len();
    for i in 0..n
        invariant
            n == c.slots@.len(),
            out@ + spec_print_slots(c.slots@.skip(i as int)) == mid + spec_print_slots(c.slots@),
    {
        let ghost before = out@;
        proof {
            assert(c.slots@.skip(i as int)[0] == c.slots@[i as int]);
            assert(c.slots@.skip(i as int).drop_first() =~= c.slots@.skip(i + 1));
        }
        match c.slots[i] {
            Some(id) => {
                print_id_to(out, id);
            },
            None => {
                crate::chars::push_lit(out, "null");
            },
        }
        if i + 1 < n {
            out.push(',');
            proof {
                assert(out@ + spec_print_slots(c.slots@.skip(i + 1)) =~= before
                    + spec_print_slots(c.slots@.skip(i as int)));
            }
        } else {
            proof {
                assert(c.slots@.skip(i + 1) =~= Seq::<Option<u128>>::empty());
                assert(spec_print_slots(c.slots@.skip(i + 1)) == Seq::<char>::empty());
                assert(out@ + spec_print_slots(c.slots@.skip(i + 1)) =~= before
                    + spec_print_slots(c.slots@.skip(i as int)));
            }
        }
    }
    proof {
        assert(c.slots@.skip(n as int) =~= Seq::<Option<u128>>::empty());
        assert(out@ =~= mid + spec_print_slots(c.slots@));
    }
    out.push(']');
    out.push('}');
    proof {
        assert(out@ =~= old(out)@ + spec_print_container(c@));
    }
}


/// Appends a value binding.
pub fn print_binding_to(out: &mut Vec<char>, b: &ValueBinding)
    ensures
        final(out)@ == old(out)@ + spec_print_binding(b@),
{
    crate::chars::push_lit(out, "{\"path\":");
    match &b.path {
        Some(p) => {
            print_string_to(out, p);
        },
        None => {
            crate::chars::push_lit(out, "null");
        },
    }
    crate::chars::push_lit(out, ",\"component_type\":");
    print_string_to(out, &b.component_type.0);
    out.push('}');
    proof {
        assert(out@ =~= old(out)@ + spec_print_binding(b@));
    }
}

/// Appends one track.
pub fn print_track_to(out: &mut Vec<char>, t: &Track)
    ensures
        final(out)@ == old(out)@ + spec_print_track(t@),
{
    crate::chars::push_lit(out, "{\"enabled\":");
    if t.enabled {
        crate::chars::push_lit(out, "true");
    } else {
        crate::chars::push_lit(out, "false");
    }
    crate::chars::push_lit(out, ",\"frames\":");
    print_container_to(out, &t.frames);
    crate::chars::push_lit(out, ",\"binding\":");
    print_binding_to(out, &t.binding);
    out.push('}');
    proof {
        assert(out@ =~= old(out)@ + spec_print_track(t@));
    }
}

/// Appends the fields of a per-field track object from position `i`
/// on.
fn print_track_fields_to(out: &mut Vec<char>, m: &StrMap<Track>, i: usize)
    requires
        i < m@.len(),
    ensures
        final(out)@ == old(out)@ + spec_print_obj_fields(
            m@.skip(i as int),
            |t: TrackModel| spec_print_track(t),
        ),
    decreases m@.len() - i,
{
    let ghost fields = m@.skip(i as int);
    let ghost tpr = |t: TrackModel| spec_print_track(t);
    proof {
        assert(fields[0] == m@[i as int]);
    }
    let key = m.key_at(i);
    let t = m.val_at(i);
    print_string_to(out, key);
    out.push(':');
    print_track_to(out, t);
    let n = m.len();
    if i + 1 < n {
        out.push(',');
        print_track_fields_to(out, m, i + 1);
        proof {
            assert(m@.skip(i as int).drop_first() =~= m@.skip(i + 1));
            assert(out@ =~= old(out)@ + spec_print_obj_fields(fields, tpr));
        }
    } else {
        proof {
            assert(fields.len() == 1);
            assert(out@ =~= old(out)@ + spec_print_obj_fields(fields, tpr));
        }
    }
}

/// Appends one component track.
pub fn print_ctrack_to(out: &mut Vec<char>, ct: &ComponentTrack)
    ensures
        final(out)@ == old(out)@ + spec_print_ctrack(ct@),
{
    let ghost tpr = |t: TrackModel| spec_print_track(t);
    match ct {
        ComponentTrack::Single(t) => {
            crate::chars::push_lit(out, "{\"Single\":");
            print_track_to(out, &t.0);
            out.push('}');
            proof {
                assert(out@ =~= old(out)@ + spec_print_ctrack(ct@));
            }
        },
        ComponentTrack::Multiple(m) => {
            crate::chars::push_lit(out, "{\"Multiple\":");
            out.push('{');
            if m.0.len() > 0 {
                print_track_fields_to(out, &m.0, 0);
                proof {
                    assert(m.0@.skip(0) =~= m.0@);
                }
            } else {
                proof {
                    assert(spec_print_obj_fields(m.0@, tpr) == Seq::<char>::empty());
                }
            }
            out.push('}');
            out.push('}');
            proof {
                assert(out@ =~= old(out)@ + spec_print_ctrack(ct@));
            }
        },
    }
}

/// Appends the fields of a clip object from position `i` on.
fn print_ctrack_fields_to(out: &mut Vec<char>, m: &StrMap<ComponentTrack>, i: usize)
    requires
        i < m@.len(),
    ensures
        final(out)@ == old(out)@ + spec_print_obj_fields(
            m@.skip(i as int),
            |ct: ComponentTrackModel| spec_print_ctrack(ct),
        ),
    decreases m@.len() - i,
{
    let ghost fields = m@.skip(i as int);
    let ghost cpr = |ct: ComponentTrackModel| spec_print_ctrack(ct);
    proof {
        assert(fields[0] == m@[i as int]);
    }
    let key = m.key_at(i);
    let ct = m.val_at(i);
    print_string_to(out, key);
    out.push(':');
    print_ctrack_to(out, ct);
    let n = m.len();
    if i + 1 < n {
        out.push(',');
        print_ctrack_fields_to(out, m, i + 1);
        proof {
            assert(m@.skip(i as int).drop_first() =~= m@.skip(i + 1));
            assert(out@ =~= old(out)@ + spec_print_obj_fields(fields, cpr));
        }
    } else {
        proof {
            assert(fields.len() == 1);
            assert(out@ =~= old(out)@ + spec_print_obj_fields(fields, cpr));
        }
    }
}

/// Appends one clip.
pub fn print_clip_to(out: &mut Vec<char>, e: &EntityAnimation)
    ensures
        final(out)@ == old(out)@ + spec_print_clip(e@),
{
    let ghost cpr = |ct: ComponentTrackModel| spec_print_ctrack(ct);
    out.push('{');
    if e.tracks.len() > 0 {
        print_ctrack_fields_to(out, &e.tracks, 0);
        proof {
            assert(e.tracks@.skip(0) =~= e.tracks@);
        }
    } else {
        proof {
            assert(spec_print_obj_fields(e.tracks@, cpr) == Seq::<char>::empty());
        }
    }
    out.push('}');
    proof {
        assert(out@ =~= old(out)@ + spec_print_clip(e@));
    }
}

/// Appends the fields of an animation-set object from position `i`
/// on.
fn print_clip_fields_to(out: &mut Vec<char>, m: &StrMap<EntityAnimation>, i: usize)
    requires
        i < m@.len(),
    ensures
        final(out)@ == old(out)@ + spec_print_obj_fields(
            m@.skip(i as int),
            |e: Seq<(Seq<char>, ComponentTrackModel)>| spec_print_clip(e),
        ),
    decreases m@.len() - i,
{
    let ghost fields = m@.skip(i as int);
    let ghost epr = |e: Seq<(Seq<char>, ComponentTrackModel)>| spec_print_clip(e);
    proof {
        assert(fields[0] == m@[i as int]);
    }
    let key = m.key_at(i);
    let e = m.val_at(i);
    print_string_to(out, key);
    out.push(':');
    print_clip_to(out, e);
    let n = m.len();
    if i + 1 < n {
        out.push(',');
        print_clip_fields_to(out, m, i + 1);
        proof {
            assert(m@.skip(i as int).drop_first() =~= m@.skip(i + 1));
            assert(out@ =~= old(out)@ + spec_print_obj_fields(fields, epr));
        }
    } else {
        proof {
            assert(fields.len() == 1);
            assert(out@ =~= old(out)@ + spec_print_obj_fields(fields, epr));
        }
    }
}

impl EntityAnimations {
    /// Writes this animation set in the persisted text format.
    pub fn encode(&self) -> (r: String)
        ensures
            r@ == spec_print_set(self@),
    {
        let ghost epr = |e: Seq<(Seq<char>, ComponentTrackModel)>| spec_print_clip(e);
        let mut out: Vec<char> = Vec::new();
        out.push('{');
        if self.0.len() > 0 {
            print_clip_fields_to(&mut out, &self.0, 0);
            proof {
                assert(self.0@.skip(0) =~= self.0@);
            }
        } else {
            proof {
                assert(spec_print_obj_fields(self.0@, epr) == Seq::<char>::empty());
            }
        }
        out.push('}');
        proof {
            assert(out@ =~= spec_print_set(self@));
        }
        crate::chars::chars_to_string(&out)
    }
}


/// Parses a signed scalar, rejecting magnitudes outside the scalar
/// range.
fn parse_i64(s: &Vec<char>, pos: usize) -> (r: Option<(i64, usize)>)
    requires
        pos <= s@.len(),
    ensures
        r matches Some((v, p)) ==> spec_parse_int(s@, pos as int) == Some((v as int, p as int))
            && pos < p <= s@.len(),
        r is None ==> (match spec_parse_int(s@, pos as int) {
            Some((n, _)) => !(i64::MIN <= n <= i64::MAX),
            None => true,
        }),
{
    if pos < s.len() && s[pos] == '-' {
        match crate::chars::parse_digits(s, pos + 1) {
            Some((mag, p)) => {
                if mag > i64::MAX as u128 + 1 {
                    None
                } else if mag == i64::MAX as u128 + 1 {
                    Some((i64::MIN, p))
                } else {
                    Some((-(mag as i64), p))
                }
            },
            None => None,
        }
    } else {
        match crate::chars::parse_digits(s, pos) {
            Some((v, p)) => {
                if v > i64::MAX as u128 {
                    None
                } else {
                    Some((v as i64, p))
                }
            },
            None => None,
        }
    }
}

/// Reads an identifier from quoted text that must be all digits.
fn id_of_string(t: &String) -> (r: Option<u128>)
    ensures
        r == spec_str_to_id(t@),
{
    let cs = crate::chars::str_chars(t.as_str());
    if cs.len() == 0 {
        return None;
    }
    match crate::chars::parse_digits(&cs, 0) {
        Some((v, p)) => {
            if p == cs.len() {
                proof {
                    assert(cs@.subrange(0, cs@.len() as int) =~= cs@);
                }
                Some(v)
            } else {
                None
            }
        },
        None => {
            proof {
                if spec_str_to_id(t@) is Some {
                    assert(cs@.subrange(0, cs@.len() as int) =~= cs@);
                }
            }
            None
        },
    }
}

/// Parses one raw keyframe value.
#[verifier::rlimit(100)]
#[verifier::spinoff_prover]
fn parse_value(s: &Vec<char>, pos: usize) -> (r: Option<(TrackValue, usize)>)
    requires
        pos <= s@.len(),
    ensures
        r matches Some((v, p)) ==> spec_parse_value(s@, pos as int) == Some((v@, p as int))
            && pos < p <= s@.len(),
        r is None ==> (spec_parse_value(s@, pos as int) is None),
{
    match crate::chars::expect_lit(s, pos, "{\"Number\":") {
        Some(p) => {
            let (n, p2) = match parse_i64(s, p) {
                Some(x) => x,
                None => {
                    return None;
                },
            };
            if p2 < s.len() && s[p2] == '}' {
                proof {
                    assert(s@.subrange(p2 as int, p2 + 1) =~= seq!['}']);
                }
                Some((TrackValue::Number(n), p2 + 1))
            } else {
                proof {
                    if spec_expect(s@, p2 as int, seq!['}']) is Some {
                        assert(s@.subrange(p2 as int, p2 + 1)[0] == s@[p2 as int]);
                    }
                }
                None
            }
        },
        None => {
            let p = match crate::chars::expect_lit(s, pos, "{\"Asset\":{\"path\":") {
                Some(p) => p,
                None => {
                    return None;
                },
            };
            if p >= s.len() || s[p] != '"' {
                return None;
            }
            let (path, p2) = match crate::chars::parse_str_content(s, p + 1) {
                Some(x) => x,
                None => {
                    return None;
                },
            };
            let p3 = match crate::chars::expect_lit(s, p2, ",\"type_path\":") {
                Some(p3) => p3,
                None => {
                    return None;
                },
            };
            if p3 >= s.len() || s[p3] != '"' {
                return None;
            }
            let (tp, p4) = match crate::chars::parse_str_content(s, p3 + 1) {
                Some(x) => x,
                None => {
                    return None;
                },
            };
            if p4 < s.len() && s[p4] == '}' && p4 + 1 < s.len() && s[p4 + 1] == '}' {
                proof {
                    assert(s@.subrange(p4 as int, p4 + 2) =~= seq!['}', '}']);
                }
                Some(
                    (
                        TrackValue::Asset(
                            AssetPath { path, type_path: ShortTypePath(tp) },
                        ),
                        p4 + 2,
                    ),
                )
            } else {
                proof {
                    if spec_expect(s@, p4 as int, seq!['}', '}']) is Some {
                        assert(s@.subrange(p4 as int, p4 + 2)[0] == s@[p4 as int]);
                        assert(s@.subrange(p4 as int, p4 + 2)[1] == s@[p4 + 1]);
                    }
                }
                None
            }
        },
    }
}

/// Parses one keyframe record.
#[verifier::rlimit(100)]
#[verifier::spinoff_prover]
fn parse_keyframe(s: &Vec<char>, pos: usize) -> (r: Option<(Keyframe, usize)>)
    requires
        pos <= s@.len(),
    ensures
        r matches Some((kf, p)) ==> spec_parse_keyframe(s@, pos as int) == Some((kf@, p as int))
            && pos < p <= s@.len(),
        r is None ==> (spec_parse_keyframe(s@, pos as int) is None),
{
    let p = match crate::chars::expect_lit(s, pos, "{\"id\":") {
        Some(p) => p,
        None => {
            return None;
        },
    };
    if p >= s.len() || s[p] != '"' {
        return None;
    }
    let (idtext, p1) = match crate::chars::parse_str_content(s, p + 1) {
        Some(x) => x,
        None => {
            return None;
        },
    };
    let id = match id_of_string(&idtext) {
        Some(id) => id,
        None => {
            return None;
        },
    };
    let p2 = match crate::chars::expect_lit(s, p1, ",\"location\":") {
        Some(p2) => p2,
        None => {
            return None;
        },
    };
    let (loc, p3) = match crate::chars::parse_digits(s, p2) {
        Some(x) => x,
        None => {
            return None;
        },
    };
    if loc > usize::MAX as u128 {
        return None;
    }
    let p4 = match crate::chars::expect_lit(s, p3, ",\"value\":") {
        Some(p4) => p4,
        None => {
            return None;
        },
    };
    let (v, p5) = match parse_value(s, p4) {
        Some(x) => x,
        None => {
            return None;
        },
    };
    if p5 < s.len() && s[p5] == '}' {
        proof {
            assert(s@.subrange(p5 as int, p5 + 1) =~= seq!['}']);
        }
        Some((Keyframe { id, location: loc as usize, value: v }, p5 + 1))
    } else {
        proof {
            if spec_expect(s@, p5 as int, seq!['}']) is Some {
                assert(s@.subrange(p5 as int, p5 + 1)[0] == s@[p5 as int]);
            }
        }
        None
    }
}

/// Parses the fields of a non-empty keyframe object, up to and
/// including the closing brace.
#[verifier::rlimit(100)]
#[verifier::spinoff_prover]
fn parse_kf_fields(s: &Vec<char>, pos: usize) -> (r: Option<(Vec<(String, Keyframe)>, usize)>)
    requires
        pos <= s@.len(),
    ensures
        r matches Some((fs, p)) ==> spec_parse_obj_fields(
            s@,
            pos as int,
            |s2: Seq<char>, p2: int| spec_parse_keyframe(s2, p2),
        ) == Some((fs@.map_values(|q: (String, Keyframe)| (q.0@, q.1@)), p as int)) && pos < p
            <= s@.len(),
        r is None ==> (spec_parse_obj_fields(
            s@,
            pos as int,
            |s2: Seq<char>, p2: int| spec_parse_keyframe(s2, p2),
        ) is None),
    decreases s@.len() - pos,
{
    let ghost kfpa = |s2: Seq<char>, p2: int| spec_parse_keyframe(s2, p2);
    if pos >= s.len() || s[pos] != '"' {
        return None;
    }
    let (key, p1) = match crate::chars::parse_str_content(s, pos + 1) {
        Some(x) => x,
        None => {
            return None;
        },
    };
    if p1 >= s.len() || s[p1] != ':' {
        return None;
    }
    let (kf, p2) = match parse_keyframe(s, p1 + 1) {
        Some(x) => x,
        None => {
            return None;
        },
    };
    if p2 >= s.len() {
        return None;
    }
    if s[p2] == ',' {
        let (rest, p3) = match parse_kf_fields(s, p2 + 1) {
            Some(x) => x,
            None => {
                return None;
            },
        };
        let mut items = rest;
        items.insert(0, (key, kf));
        proof {
            assert(items@.map_values(|q: (String, Keyframe)| (q.0@, q.1@)) =~= seq![
                (key@, kf@)] + (spec_parse_obj_fields(s@, p2 + 1, kfpa)->0).0);
        }
        Some((items, p3))
    } else if s[p2] == '}' {
        let mut items: Vec<(String, Keyframe)> = Vec::new();
        items.push((key, kf));
        proof {
            assert(items@.map_values(|q: (String, Keyframe)| (q.0@, q.1@)) =~= seq![
                (key@, kf@)]);
        }
        Some((items, p2 + 1))
    } else {
        None
    }
}

/// Parses the slot array's items, up to and including the closing
/// bracket.
fn parse_slots(s: &Vec<char>, pos: usize) -> (r: Option<(Vec<Option<u128>>, usize)>)
    requires
        pos <= s@.len(),
    ensures
        r matches Some((sl, p)) ==> spec_parse_slots(s@, pos as int) == Some((sl@, p as int))
            && pos < p <= s@.len(),
        r is None ==> (spec_parse_slots(s@, pos as int) is None),
    decreases s@.len() - pos,
{
    let item: (Option<u128>, usize) = match crate::chars::expect_lit(s, pos, "null") {
        Some(p) => {
            proof {
                reveal_strlit("null");
            }
            (None, p)
        },
        None => {
            if pos >= s.len() || s[pos] != '"' {
                return None;
            }
            let (idtext, p) = match crate::chars::parse_str_content(s, pos + 1) {
                Some(x) => x,
                None => {
                    return None;
                },
            };
            match id_of_string(&idtext) {
                Some(id) => (Some(id), p),
                None => {
                    return None;
                },
            }
        },
    };
    let (slot, p) = item;
    proof {
        reveal_strlit("null");
    }
    if p >= s.len() {
        return None;
    }
    if s[p] == ',' {
        let (rest, p2) = match parse_slots(s, p + 1) {
            Some(x) => x,
            None => {
                return None;
            },
        };
        let mut items = rest;
        items.insert(0, slot);
        proof {
            assert(items@ =~= seq![slot] + (spec_parse_slots(s@, p + 1)->0).0);
        }
        Some((items, p2))
    } else if s[p] == ']' {
        let mut items: Vec<Option<u128>> = Vec::new();
        items.push(slot);
        proof {
            assert(items@ =~= seq![slot]);
        }
        Some((items, p + 1))
    } else {
        None
    }
}


/// Parses keyframe storage, validating exactly what storage
/// well-formedness requires.
#[verifier::loop_isolation(false)]
#[verifier::rlimit(100)]
#[verifier::spinoff_prover]
fn parse_container(s: &Vec<char>, pos: usize) -> (r: Option<(TrackDataContainer, usize)>)
    requires
        pos <= s@.len(),
    ensures
        r matches Some((c, p)) ==> spec_parse_container(s@, pos as int) == Some((c@, p as int))
            && pos < p <= s@.len(),
        r is None ==> (spec_parse_container(s@, pos as int) is None),
{
    let ghost kfpa = |s2: Seq<char>, p2: int| spec_parse_keyframe(s2, p2);
    let p = match crate::chars::expect_lit(s, pos, "{\"keyframes\":") {
        Some(p) => p,
        None => {
            return None;
        },
    };
    if p >= s.len() || s[p] != '{' {
        return None;
    }
    let (fields, p1): (Vec<(String, Keyframe)>, usize) = if p + 1 < s.len() && s[p + 1] == '}' {
        proof {
            assert(Seq::<(String, Keyframe)>::empty().map_values(
                |q: (String, Keyframe)| (q.0@, q.1@),
            ) =~= Seq::<(Seq<char>, KeyframeModel)>::empty());
        }
        (Vec::new(), p + 2)
    } else {
        match parse_kf_fields(s, p + 1) {
            Some(x) => x,
            None => {
                return None;
            },
        }
    };
    let ghost fieldsm = fields@.map_values(|q: (String, Keyframe)| (q.0@, q.1@));
    let mut entries: Vec<(u128, Keyframe)> = Vec::new();
    let nf = fields.len();
    let mut fi: usize = 0;
    while fi < nf
        invariant
            nf == fields@.len(),
            fi <= nf,
            fieldsm == fields@.map_values(|q: (String, Keyframe)| (q.0@, q.1@)),
            entries@.len() == fi,
            forall|j: int|
                0 <= j < fi ==> spec_str_to_id(fieldsm[j].0) == Some(
                    (#[trigger] entries@[j]).0,
                ) && entries@[j].1@ == fieldsm[j].1,
        decreases nf - fi,
    {
        let key = &fields[fi].0;
        match id_of_string(key) {
            Some(id) => {
                let kf = fields[fi].1.clone();
                entries.push((id, kf));
            },
            None => {
                proof {
                    assert(fieldsm[fi as int].0 == fields@[fi as int].0@);
                    assert(spec_str_to_id(fieldsm[fi as int].0) is None);
                    assert(spec_fields_to_kfs(fieldsm) is None);
                }
                return None;
            },
        }
        fi = fi + 1;
    }
    let kfmap = IdMap::from_entries(entries);
    let ghost mapped = Seq::new(
        fieldsm.len(),
        |i: int| (spec_str_to_id(fieldsm[i].0)->0, fieldsm[i].1),
    );
    proof {
        assert forall|i: int| 0 <= i < fieldsm.len() implies (#[trigger] spec_str_to_id(
            fieldsm[i].0,
        )) is Some by {
            assert(spec_str_to_id(fieldsm[i].0) == Some(entries@[i].0));
        }
        assert forall|i: int| 0 <= i < mapped.len() implies kfmap@[i] == mapped[i] by {
            assert(spec_str_to_id(fieldsm[i].0) == Some(entries@[i].0));
            assert(entries@[i].1@ == fieldsm[i].1);
        }
        assert(kfmap@ =~= mapped);
    }
    if !kfmap.keys_unique() {
        proof {
            assert(spec_fields_to_kfs(fieldsm) is None);
        }
        return None;
    }
    proof {
        assert(spec_fields_to_kfs(fieldsm) == Some(mapped));
    }
    let p2 = match crate::chars::expect_lit(
        s,
        p1,
        ",\"mode\":\"Constant\",\"frame_duration\":",
    ) {
        Some(p2) => p2,
        None => {
            return None;
        },
    };
    let (d, p3) = match crate::chars::parse_digits(s, p2) {
        Some(x) => x,
        None => {
            return None;
        },
    };
    if d < 1 || d > u64::MAX as u128 {
        return None;
    }
    let p4 = match crate::chars::expect_lit(s, p3, ",\"slots\":[") {
        Some(p4) => p4,
        None => {
            return None;
        },
    };
    let (slots, p5) = match parse_slots(s, p4) {
        Some(x) => x,
        None => {
            return None;
        },
    };
    let q = (u64::MAX as u128) / (slots.len() as u128);
    proof {
        let m = u64::MAX as int;
        let c = slots@.len() as int;
        vstd::arithmetic::div_mod::lemma_fundamental_div_mod(m, c);
        vstd::arithmetic::div_mod::lemma_mod_bound(m, c);
        assert(q == m / c);
        if d as int > q {
            assert((d as int) * c >= (m / c + 1) * c) by (nonlinear_arith)
                requires
                    d as int >= m / c + 1,
                    c >= 1,
            ;
            assert((m / c + 1) * c == (m / c) * c + c) by (nonlinear_arith);
            assert((d as int) * c > m);
        } else {
            assert((d as int) * c <= (m / c) * c) by (nonlinear_arith)
                requires
                    d as int <= m / c,
                    c >= 1,
            ;
            assert((m / c) * c <= m);
            assert((d as int) * c <= m);
        }
    }
    if d > q {
        return None;
    }
    let ns = slots.len();
    let mut si: usize = 0;
    while si < ns
        invariant
            ns == slots@.len(),
            si <= ns,
            kfmap@ == mapped,
            forall|j: int|
                0 <= j < si ==> ((#[trigger] slots@[j]) matches Some(id) ==> assoc_has(
                    mapped,
                    id,
                )),
        decreases ns - si,
    {
        match slots[si] {
            Some(id) => {
                if !kfmap.contains_key(id) {
                    proof {
                        assert(slots@[si as int] == Some(id));
                        assert(!(slots@[si as int] matches Some(id2) ==> assoc_has(
                            mapped,
                            id2,
                        )));
                    }
                    return None;
                }
            },
            None => {},
        }
        si = si + 1;
    }
    if p5 < s.len() && s[p5] == '}' {
        proof {
            assert(s@.subrange(p5 as int, p5 + 1) =~= seq!['}']);
        }
        Some(
            (
                TrackDataContainer {
                    keyframes: kfmap,
                    mode: InterpolationMode::Constant,
                    frame_duration: d as u64,
                    slots,
                },
                p5 + 1,
            ),
        )
    } else {
        proof {
            if spec_expect(s@, p5 as int, seq!['}']) is Some {
                assert(s@.subrange(p5 as int, p5 + 1)[0] == s@[p5 as int]);
            }
        }
        None
    }
}

/// Parses a value binding.
fn parse_binding(s: &Vec<char>, pos: usize) -> (r: Option<(ValueBinding, usize)>)
    requires
        pos <= s@.len(),
    ensures
        r matches Some((b, p)) ==> spec_parse_binding(s@, pos as int) == Some((b@, p as int))
            && pos < p <= s@.len(),
        r is None ==> (spec_parse_binding(s@, pos as int) is None),
{
    let p = match crate::chars::expect_lit(s, pos, "{\"path\":") {
        Some(p) => p,
        None => {
            return None;
        },
    };
    let (path, p1): (Option<String>, usize) = match crate::chars::expect_lit(s, p, "null") {
        Some(p1) => {
            proof {
                reveal_strlit("null");
            }
            (None, p1)
        },
        None => {
            if p >= s.len() || s[p] != '"' {
                return None;
            }
            match crate::chars::parse_str_content(s, p + 1) {
                Some((t, p1)) => (Some(t), p1),
                None => {
                    return None;
                },
            }
        },
    };
    proof {
        reveal_strlit("null");
    }
    let p2 = match crate::chars::expect_lit(s, p1, ",\"component_type\":") {
        Some(p2) => p2,
        None => {
            return None;
        },
    };
    if p2 >= s.len() || s[p2] != '"' {
        return None;
    }
    let (ct, p3) = match crate::chars::parse_str_content(s, p2 + 1) {
        Some(x) => x,
        None => {
            return None;
        },
    };
    if p3 < s.len() && s[p3] == '}' {
        proof {
            assert(s@.subrange(p3 as int, p3 + 1) =~= seq!['}']);
        }
        Some((ValueBinding { path, component_type: ShortTypePath(ct) }, p3 + 1))
    } else {
        proof {
            if spec_expect(s@, p3 as int, seq!['}']) is Some {
                assert(s@.subrange(p3 as int, p3 + 1)[0] == s@[p3 as int]);
            }
        }
        None
    }
}

/// Parses one track.
fn parse_track(s: &Vec<char>, pos: usize) -> (r: Option<(Track, usize)>)
    requires
        pos <= s@.len(),
    ensures
        r matches Some((t, p)) ==> spec_parse_track(s@, pos as int) == Some((t@, p as int))
            && pos < p <= s@.len(),
        r is None ==> (spec_parse_track(s@, pos as int) is None),
{
    let p = match crate::chars::expect_lit(s, pos, "{\"enabled\":") {
        Some(p) => p,
        None => {
            return None;
        },
    };
    let (enabled, p1): (bool, usize) = match crate::chars::expect_lit(s, p, "true") {
        Some(p1) => (true, p1),
        None => match crate::chars::expect_lit(s, p, "false") {
            Some(p1) => (false, p1),
            None => {
                return None;
            },
        },
    };
    let p2 = match crate::chars::expect_lit(s, p1, ",\"frames\":") {
        Some(p2) => p2,
        None => {
            return None;
        },
    };
    let (frames, p3) = match parse_container(s, p2) {
        Some(x) => x,
        None => {
            return None;
        },
    };
    let p4 = match crate::chars::expect_lit(s, p3, ",\"binding\":") {
        Some(p4) => p4,
        None => {
            return None;
        },
    };
    let (binding, p5) = match parse_binding(s, p4) {
        Some(x) => x,
        None => {
            return None;
        },
    };
    if p5 < s.len() && s[p5] == '}' {
        proof {
            assert(s@.subrange(p5 as int, p5 + 1) =~= seq!['}']);
        }
        Some((Track { enabled, frames, binding }, p5 + 1))
    } else {
        proof {
            if spec_expect(s@, p5 as int, seq!['}']) is Some {
                assert(s@.subrange(p5 as int, p5 + 1)[0] == s@[p5 as int]);
            }
        }
        None
    }
}

/// Parses the fields of a non-empty per-field track object, up to
/// and including the closing brace.
#[verifier::rlimit(100)]
#[verifier::spinoff_prover]
fn parse_track_fields(s: &Vec<char>, pos: usize) -> (r: Option<(Vec<(String, Track)>, usize)>)
    requires
        pos <= s@.len(),
    ensures
        r matches Some((fs, p)) ==> spec_parse_obj_fields(
            s@,
            pos as int,
            |s2: Seq<char>, p2: int| spec_parse_track(s2, p2),
        ) == Some((fs@.map_values(|q: (String, Track)| (q.0@, q.1@)), p as int)) && pos < p
            <= s@.len(),
        r is None ==> (spec_parse_obj_fields(
            s@,
            pos as int,
            |s2: Seq<char>, p2: int| spec_parse_track(s2, p2),
        ) is None),
    decreases s@.len() - pos,
{
    let ghost tpa = |s2: Seq<char>, p2: int| spec_parse_track(s2, p2);
    if pos >= s.len() || s[pos] != '"' {
        return None;
    }
    let (key, p1) = match crate::chars::parse_str_content(s, pos + 1) {
        Some(x) => x,
        None => {
            return None;
        },
    };
    if p1 >= s.len() || s[p1] != ':' {
        return None;
    }
    let (t, p2) = match parse_track(s, p1 + 1) {
        Some(x) => x,
        None => {
            return None;
        },
    };
    if p2 >= s.len() {
        return None;
    }
    if s[p2] == ',' {
        let (rest, p3) = match parse_track_fields(s, p2 + 1) {
            Some(x) => x,
            None => {
                return None;
            },
        };
        let mut items = rest;
        items.insert(0, (key, t));
        proof {
            assert(items@.map_values(|q: (String, Track)| (q.0@, q.1@)) =~= seq![(key@, t@)]
                + (spec_parse_obj_fields(s@, p2 + 1, tpa)->0).0);
        }
        Some((items, p3))
    } else if s[p2] == '}' {
        let mut items: Vec<(String, Track)> = Vec::new();
        items.push((key, t));
        proof {
            assert(items@.map_values(|q: (String, Track)| (q.0@, q.1@)) =~= seq![(key@, t@)]);
        }
        Some((items, p2 + 1))
    } else {
        None
    }
}

/// Parses one component track.
#[verifier::rlimit(100)]
#[verifier::spinoff_prover]
fn parse_ctrack(s: &Vec<char>, pos: usize) -> (r: Option<(ComponentTrack, usize)>)
    requires
        pos <= s@.len(),
    ensures
        r matches Some((ct, p)) ==> spec_parse_ctrack(s@, pos as int) == Some((ct@, p as int))
            && pos < p <= s@.len(),
        r is None ==> (spec_parse_ctrack(s@, pos as int) is None),
{
    let ghost tpa = |s2: Seq<char>, p2: int| spec_parse_track(s2, p2);
    match crate::chars::expect_lit(s, pos, "{\"Single\":") {
        Some(p) => {
            let (t, p1) = match parse_track(s, p) {
                Some(x) => x,
                None => {
                    return None;
                },
            };
            if p1 < s.len() && s[p1] == '}' {
                proof {
                    assert(s@.subrange(p1 as int, p1 + 1) =~= seq!['}']);
                }
                Some((ComponentTrack::Single(SingleComponentTrack(t)), p1 + 1))
            } else {
                proof {
                    if spec_expect(s@, p1 as int, seq!['}']) is Some {
                        assert(s@.subrange(p1 as int, p1 + 1)[0] == s@[p1 as int]);
                    }
                }
                None
            }
        },
        None => {
            let p = match crate::chars::expect_lit(s, pos, "{\"Multiple\":") {
                Some(p) => p,
                None => {
                    return None;
                },
            };
            if p >= s.len() || s[p] != '{' {
                return None;
            }
            let (fields, p1): (Vec<(String, Track)>, usize) = if p + 1 < s.len() && s[p + 1]
                == '}' {
                proof {
                    assert(Seq::<(String, Track)>::empty().map_values(
                        |q: (String, Track)| (q.0@, q.1@),
                    ) =~= Seq::<(Seq<char>, TrackModel)>::empty());
                }
                (Vec::new(), p + 2)
            } else {
                match parse_track_fields(s, p + 1) {
                    Some(x) => x,
                    None => {
                        return None;
                    },
                }
            };
            let m = StrMap::from_entries(fields);
            if !m.keys_unique() {
                return None;
            }
            if p1 < s.len() && s[p1] == '}' {
                proof {
                    assert(s@.subrange(p1 as int, p1 + 1) =~= seq!['}']);
                }
                Some((ComponentTrack::Multiple(MultipleSingleComponentTrack(m)), p1 + 1))
            } else {
                proof {
                    if spec_expect(s@, p1 as int, seq!['}']) is Some {
                        assert(s@.subrange(p1 as int, p1 + 1)[0] == s@[p1 as int]);
                    }
                }
                None
            }
        },
    }
}


/// Every field value of a parsed object satisfies whatever the value
/// parser guarantees of its results.
pub proof fn lemma_parse_obj_fields_prop<T>(
    s: Seq<char>,
    pos: int,
    pa: spec_fn(Seq<char>, int) -> Option<(T, int)>,
    p: spec_fn(T) -> bool,
)
    requires
        forall|s2: Seq<char>, p2: int| (#[trigger] pa(s2, p2)) matches Some(x) ==> p(x.0),
        spec_parse_obj_fields(s, pos, pa) is Some,
    ensures
        forall|i: int|
            0 <= i < (spec_parse_obj_fields(s, pos, pa)->0).0.len() ==> p(
                #[trigger] ((spec_parse_obj_fields(s, pos, pa)->0).0)[i].1,
            ),
    decreases s.len() - pos,
{
    let r = (spec_parse_obj_fields(s, pos, pa)->0).0;
    let key = spec_parse_str_content(s, pos + 1)->0;
    let p1 = key.1;
    let v = (pa(s, p1 + 1)->0).0;
    let p2 = (pa(s, p1 + 1)->0).1;
    assert(p(v));
    if s[p2] == ',' {
        lemma_parse_obj_fields_prop(s, p2 + 1, pa, p);
        let rest = (spec_parse_obj_fields(s, p2 + 1, pa)->0).0;
        assert forall|i: int| 0 <= i < r.len() implies p(#[trigger] r[i].1) by {
            if i > 0 {
                assert(r[i].1 == rest[i - 1].1);
            }
        }
    } else {
        assert forall|i: int| 0 <= i < r.len() implies p(#[trigger] r[i].1) by {
            assert(r[i].1 == v);
        }
    }
}

/// A parsed slot array holds at least one slot.
pub proof fn lemma_parse_slots_len(s: Seq<char>, pos: int)
    requires
        spec_parse_slots(s, pos) is Some,
    ensures
        (spec_parse_slots(s, pos)->0).0.len() >= 1,
{
}

/// Whatever keyframe storage the parser accepts is well-formed.
pub proof fn lemma_parse_container_wf(s: Seq<char>, pos: int)
    requires
        spec_parse_container(s, pos) is Some,
    ensures
        crate::track::container_wf((spec_parse_container(s, pos)->0).0),
{
    let c = (spec_parse_container(s, pos)->0).0;
    let p = spec_expect(s, pos, lit_keyframes())->0;
    let ob = spec_parse_obj(s, p, |s2: Seq<char>, p2: int| spec_parse_keyframe(s2, p2));
    let fields = (ob->0).0;
    let kfs = spec_fields_to_kfs(fields)->0;
    let p1 = (ob->0).1;
    let p2 = spec_expect(s, p1, lit_mode_duration())->0;
    let d = (spec_parse_digits(s, p2)->0).0;
    let p3 = (spec_parse_digits(s, p2)->0).1;
    let p4 = spec_expect(s, p3, lit_slots())->0;
    lemma_parse_slots_len(s, p4);
}

/// Whatever track the parser accepts is well-formed.
pub proof fn lemma_parse_track_wf(s: Seq<char>, pos: int)
    requires
        spec_parse_track(s, pos) is Some,
    ensures
        crate::track::track_wf((spec_parse_track(s, pos)->0).0),
{
    let p = spec_expect(s, pos, lit_enabled())->0;
    let p1: int = if spec_expect(s, p, lit_true()) is Some {
        spec_expect(s, p, lit_true())->0
    } else {
        spec_expect(s, p, lit_false())->0
    };
    let p2 = spec_expect(s, p1, lit_frames())->0;
    lemma_parse_container_wf(s, p2);
}

/// Whatever component track the parser accepts is well-formed.
pub proof fn lemma_parse_ctrack_wf(s: Seq<char>, pos: int)
    requires
        spec_parse_ctrack(s, pos) is Some,
    ensures
        crate::track::component_track_wf((spec_parse_ctrack(s, pos)->0).0),
{
    if spec_expect(s, pos, lit_single()) is Some {
        let p = spec_expect(s, pos, lit_single())->0;
        lemma_parse_track_wf(s, p);
    } else {
        let p = spec_expect(s, pos, lit_multiple())->0;
        let tpa = |s2: Seq<char>, p2: int| spec_parse_track(s2, p2);
        let ob = spec_parse_obj(s, p, tpa);
        let fields = (ob->0).0;
        assert forall|s2: Seq<char>, p2: int| (#[trigger] tpa(s2, p2)) matches Some(x)
            ==> crate::track::track_wf(x.0) by {
            if tpa(s2, p2) is Some {
                lemma_parse_track_wf(s2, p2);
            }
        }
        if 0 <= p < s.len() && s[p] == '{' && !(p + 1 < s.len() && s[p + 1] == '}') {
            lemma_parse_obj_fields_prop(
                s,
                p + 1,
                tpa,
                |t: TrackModel| crate::track::track_wf(t),
            );
        }
    }
}

/// Whatever clip the parser accepts is well-formed.
pub proof fn lemma_parse_clip_wf(s: Seq<char>, pos: int)
    requires
        spec_parse_clip(s, pos) is Some,
    ensures
        crate::entity::entity_animation_wf((spec_parse_clip(s, pos)->0).0),
{
    let cpa = |s2: Seq<char>, p2: int| spec_parse_ctrack(s2, p2);
    let ob = spec_parse_obj(s, pos, cpa);
    let fields = (ob->0).0;
    assert forall|s2: Seq<char>, p2: int| (#[trigger] cpa(s2, p2)) matches Some(x)
        ==> crate::track::component_track_wf(x.0) by {
        if cpa(s2, p2) is Some {
            lemma_parse_ctrack_wf(s2, p2);
        }
    }
    if 0 <= pos < s.len() && s[pos] == '{' && !(pos + 1 < s.len() && s[pos + 1] == '}') {
        lemma_parse_obj_fields_prop(
            s,
            pos + 1,
            cpa,
            |ct: ComponentTrackModel| crate::track::component_track_wf(ct),
        );
    }
}

/// Whatever animation set the parser accepts is well-formed.
pub proof fn lemma_parse_set_wf(s: Seq<char>)
    requires
        spec_parse_set(s) is Some,
    ensures
        crate::entity::entity_animations_wf(spec_parse_set(s)->0),
{
    let epa = |s2: Seq<char>, p2: int| spec_parse_clip(s2, p2);
    let ob = spec_parse_obj(s, 0, epa);
    let fields = (ob->0).0;
    assert forall|s2: Seq<char>, p2: int| (#[trigger] epa(s2, p2)) matches Some(x)
        ==> crate::entity::entity_animation_wf(x.0) by {
        if epa(s2, p2) is Some {
            lemma_parse_clip_wf(s2, p2);
        }
    }
    if 0 <= 0 < s.len() && s[0] == '{' && !(1 < s.len() && s[1] == '}') {
        lemma_parse_obj_fields_prop(
            s,
            1,
            epa,
            |e: Seq<(Seq<char>, ComponentTrackModel)>| crate::entity::entity_animation_wf(e),
        );
    }
}

/// Parses the fields of a non-empty clip object, up to and including
/// the closing brace.
#[verifier::rlimit(100)]
#[verifier::spinoff_prover]
fn parse_ctrack_fields(s: &Vec<char>, pos: usize) -> (r: Option<
    (Vec<(String, ComponentTrack)>, usize),
>)
    requires
        pos <= s@.len(),
    ensures
        r matches Some((fs, p)) ==> spec_parse_obj_fields(
            s@,
            pos as int,
            |s2: Seq<char>, p2: int| spec_parse_ctrack(s2, p2),
        ) == Some((fs@.map_values(|q: (String, ComponentTrack)| (q.0@, q.1@)), p as int)) && pos
            < p <= s@.len(),
        r is None ==> (spec_parse_obj_fields(
            s@,
            pos as int,
            |s2: Seq<char>, p2: int| spec_parse_ctrack(s2, p2),
        ) is None),
    decreases s@.len() - pos,
{
    let ghost cpa = |s2: Seq<char>, p2: int| spec_parse_ctrack(s2, p2);
    if pos >= s.len() || s[pos] != '"' {
        return None;
    }
    let (key, p1) = match crate::chars::parse_str_content(s, pos + 1) {
        Some(x) => x,
        None => {
            return None;
        },
    };
    if p1 >= s.len() || s[p1] != ':' {
        return None;
    }
    let (ct, p2) = match parse_ctrack(s, p1 + 1) {
        Some(x) => x,
        None => {
            return None;
        },
    };
    if p2 >= s.len() {
        return None;
    }
    if s[p2] == ',' {
        let (rest, p3) = match parse_ctrack_fields(s, p2 + 1) {
            Some(x) => x,
            None => {
                return None;
            },
        };
        let mut items = rest;
        items.insert(0, (key, ct));
        proof {
            assert(items@.map_values(|q: (String, ComponentTrack)| (q.0@, q.1@)) =~= seq![
                (key@, ct@)] + (spec_parse_obj_fields(s@, p2 + 1, cpa)->0).0);
        }
        Some((items, p3))
    } else if s[p2] == '}' {
        let mut items: Vec<(String, ComponentTrack)> = Vec::new();
        items.push((key, ct));
        proof {
            assert(items@.map_values(|q: (String, ComponentTrack)| (q.0@, q.1@)) =~= seq![
                (key@, ct@)]);
        }
        Some((items, p2 + 1))
    } else {
        None
    }
}

/// Parses one clip.
fn parse_clip(s: &Vec<char>, pos: usize) -> (r: Option<(EntityAnimation, usize)>)
    requires
        pos <= s@.len(),
    ensures
        r matches Some((e, p)) ==> spec_parse_clip(s@, pos as int) == Some((e@, p as int)) && pos
            < p <= s@.len(),
        r is None ==> (spec_parse_clip(s@, pos as int) is None),
{
    if pos >= s.len() || s[pos] != '{' {
        return None;
    }
    let (fields, p1): (Vec<(String, ComponentTrack)>, usize) = if pos + 1 < s.len() && s[pos + 1]
        == '}' {
        proof {
            assert(Seq::<(String, ComponentTrack)>::empty().map_values(
                |q: (String, ComponentTrack)| (q.0@, q.1@),
            ) =~= Seq::<(Seq<char>, ComponentTrackModel)>::empty());
        }
        (Vec::new(), pos + 2)
    } else {
        match parse_ctrack_fields(s, pos + 1) {
            Some(x) => x,
            None => {
                return None;
            },
        }
    };
    let m = StrMap::from_entries(fields);
    if !m.keys_unique() {
        return None;
    }
    Some((EntityAnimation { tracks: m }, p1))
}

/// Parses the fields of a non-empty animation-set object, up to and
/// including the closing brace.
#[verifier::rlimit(100)]
#[verifier::spinoff_prover]
fn parse_clip_fields(s: &Vec<char>, pos: usize) -> (r: Option<
    (Vec<(String, EntityAnimation)>, usize),
>)
    requires
        pos <= s@.len(),
    ensures
        r matches Some((fs, p)) ==> spec_parse_obj_fields(
            s@,
            pos as int,
            |s2: Seq<char>, p2: int| spec_parse_clip(s2, p2),
        ) == Some((fs@.map_values(|q: (String, EntityAnimation)| (q.0@, q.1@)), p as int)) && pos
            < p <= s@.len(),
        r is None ==> (spec_parse_obj_fields(
            s@,
            pos as int,
            |s2: Seq<char>, p2: int| spec_parse_clip(s2, p2),
        ) is None),
    decreases s@.len() - pos,
{
    let ghost epa = |s2: Seq<char>, p2: int| spec_parse_clip(s2, p2);
    if pos >= s.len() || s[pos] != '"' {
        return None;
    }
    let (key, p1) = match crate::chars::parse_str_content(s, pos + 1) {
        Some(x) => x,
        None => {
            return None;
        },
    };
    if p1 >= s.len() || s[p1] != ':' {
        return None;
    }
    let (e, p2) = match parse_clip(s, p1 + 1) {
        Some(x) => x,
        None => {
            return None;
        },
    };
    if p2 >= s.len() {
        return None;
    }
    if s[p2] == ',' {
        let (rest, p3) = match parse_clip_fields(s, p2 + 1) {
            Some(x) => x,
            None => {
                return None;
            },
        };
        let mut items = rest;
        items.insert(0, (key, e));
        proof {
            assert(items@.map_values(|q: (String, EntityAnimation)| (q.0@, q.1@)) =~= seq![
                (key@, e@)] + (spec_parse_obj_fields(s@, p2 + 1, epa)->0).0);
        }
        Some((items, p3))
    } else if s[p2] == '}' {
        let mut items: Vec<(String, EntityAnimation)> = Vec::new();
        items.push((key, e));
        proof {
            assert(items@.map_values(|q: (String, EntityAnimation)| (q.0@, q.1@)) =~= seq![
                (key@, e@)]);
        }
        Some((items, p2 + 1))
    } else {
        None
    }
}

/// A document that does not hold a well-formed animation set in the
/// persisted format.
#[derive(Debug, Clone, Copy, PartialEq, Eq, Structural)]
pub struct DecodeError;

impl DecodeError {
    /// A short description of the failure.
    pub fn message(&self) -> (r: &'static str) {
        "malformed animation set document"
    }
}

impl EntityAnimations {
    /// Reads an animation set back from the persisted text format.
    /// Succeeds exactly on text that parses as a well-formed set that
    /// fills the whole document; the decoded set is well-formed.
    pub fn decode(text: &str) -> (r: Result<EntityAnimations, DecodeError>)
        ensures
            r matches Ok(a) ==> spec_parse_set(text@) == Some(a@) && a.wf(),
            r matches Err(_) ==> (spec_parse_set(text@) is None),
    {
        let s = crate::chars::str_chars(text);
        if s.len() == 0 || s[0] != '{' {
            return Err(DecodeError);
        }
        let (fields, p1): (Vec<(String, EntityAnimation)>, usize) = if 1 < s.len() && s[1]
            == '}' {
            proof {
                assert(Seq::<(String, EntityAnimation)>::empty().map_values(
                    |q: (String, EntityAnimation)| (q.0@, q.1@),
                ) =~= Seq::<(Seq<char>, Seq<(Seq<char>, ComponentTrackModel)>)>::empty());
            }
            (Vec::new(), 2)
        } else {
            match parse_clip_fields(&s, 1) {
                Some(x) => x,
                None => {
                    return Err(DecodeError);
                },
            }
        };
        if p1 != s.len() {
            return Err(DecodeError);
        }
        let m = StrMap::from_entries(fields);
        if !m.keys_unique() {
            return Err(DecodeError);
        }
        proof {
            lemma_parse_set_wf(text@);
        }
        Ok(EntityAnimations(m))
    }
}

} // verus!
