use std::collections::HashMap;
use std::sync::Arc;

use vstd::prelude::*;

use crate::appearance::sprite::{AnimationLoop, PhaseRange, SpriteAnimation, SpriteBox, SpriteConfig};
use crate::text::text_eq;

verus! {

/// A JSON document as the appearance data reads it. Numbers are told apart only
/// as far as the data needs: an unsigned integer, a negative one, or any other.
#[derive(Debug)]
pub enum Json {
    Null,
    Bool(bool),
    UInt(u64),
    NegInt(i64),
    OtherNumber,
    Str(String),
    Array(Vec<Json>),
    Object(Vec<(String, Json)>),
}

/// The value under `key` among an object's entries, the first such entry.
pub open spec fn lookup(entries: Seq<(String, Json)>, key: Seq<char>) -> Option<Json>
    decreases entries.len(),
{
    if entries.len() == 0 {
        None
    } else if entries[0].0@ == key {
        Some(entries[0].1)
    } else {
        lookup(entries.drop_first(), key)
    }
}

/// `j[key]`: the value under `key` when `j` is an object that has it.
pub open spec fn field(j: Json, key: Seq<char>) -> Option<Json> {
    match j {
        Json::Object(entries) => lookup(entries@, key),
        _ => None,
    }
}

/// `j[i]`: the element at `i` when `j` is an array that long.
pub open spec fn element(j: Json, i: int) -> Option<Json> {
    match j {
        Json::Array(items) => if 0 <= i < items@.len() {
            Some(items@[i])
        } else {
            None
        },
        _ => None,
    }
}

pub open spec fn as_u64(j: Option<Json>) -> Option<u64> {
    match j {
        Some(Json::UInt(v)) => Some(v),
        _ => None,
    }
}

impl Json {
    pub fn get(&self, key: &str) -> (v: Option<&Json>)
        ensures
            v == match field(*self, key@) {
                Some(x) => Some(&x),
                None => None,
            },
    {
        match self {
            Json::Object(entries) => {
                proof {
                    assert(entries@.skip(0) =~= entries@);
                }
                let mut i: usize = 0;
                while i < entries.len()
                    invariant
                        *self == Json::Object(*entries),
                        i <= entries@.len(),
                        lookup(entries@, key@) == lookup(entries@.skip(i as int), key@),
                    decreases entries@.len() - i,
                {
                    proof {
                        assert(entries@.skip(i as int).drop_first() =~= entries@.skip(i as int + 1));
                        assert(entries@.skip(i as int)[0] == entries@[i as int]);
                    }
                    if text_eq(entries[i].0.as_str(), key) {
                        return Some(&entries[i].1);
                    }
                    i = i + 1;
                }
                None
            },
            _ => None,
        }
    }

    pub fn at(&self, i: usize) -> (v: Option<&Json>)
        ensures
            v == match element(*self, i as int) {
                Some(x) => Some(&x),
                None => None,
            },
    {
        match self {
            Json::Array(items) => if i < items.len() {
                Some(&items[i])
            } else {
                None
            },
            _ => None,
        }
    }
}

fn u64_of(j: Option<&Json>) -> (v: Option<u64>)
    ensures
        v == as_u64(
            match j {
                Some(x) => Some(*x),
                None => None,
            },
        ),
{
    match j {
        Some(Json::UInt(v)) => Some(*v),
        _ => None,
    }
}

/// The text under `key`, when it is a string.
pub open spec fn str_field(j: Json, key: Seq<char>) -> Option<Seq<char>> {
    match field(j, key) {
        Some(Json::Str(s)) => Some(s@),
        _ => None,
    }
}

/// An animation's loop mode: ping-pong and counted when the data names them (a
/// counted run without a count, or with zero, runs once), endless otherwise.
pub open spec fn loop_mode_spec(anim: Json) -> AnimationLoop {
    let t = str_field(anim, "loop_type"@);
    if t == Some("PINGPONG"@) {
        AnimationLoop::PingPong
    } else if t == Some("COUNTED"@) {
        let c = match as_u64(field(anim, "loop_count"@)) {
            Some(c) => c,
            None => 1,
        };
        AnimationLoop::Counted { count: (if c < 1 { 1 } else { c }) as u32 }
    } else {
        AnimationLoop::Infinite
    }
}

fn read_loop_mode(anim: &Json) -> (m: AnimationLoop)
    ensures
        m == loop_mode_spec(*anim),
{
    let pingpong = "PINGPONG";
    let counted = "COUNTED";
    proof {
        reveal_strlit("PINGPONG");
        reveal_strlit("COUNTED");
        reveal_strlit("loop_type");
        reveal_strlit("loop_count");
    }
    match anim.get("loop_type") {
        Some(Json::Str(t)) => {
            if text_eq(t.as_str(), pingpong) {
                AnimationLoop::PingPong
            } else if text_eq(t.as_str(), counted) {
                let c = match u64_of(anim.get("loop_count")) {
                    Some(c) => c,
                    None => 1,
                };
                AnimationLoop::Counted { count: (if c < 1 { 1 } else { c }) as u32 }
            } else {
                AnimationLoop::Infinite
            }
        },
        _ => AnimationLoop::Infinite,
    }
}

/// A run of `[min, max]` pairs, each of two unsigned integers read as `u32`;
/// `None` when any pair is not.
pub open spec fn phases_spec(items: Seq<Json>) -> Option<Seq<PhaseRange>>
    decreases items.len(),
{
    if items.len() == 0 {
        Some(Seq::empty())
    } else {
        match (
            phases_spec(items.drop_last()),
            as_u64(element(items.last(), 0)),
            as_u64(element(items.last(), 1)),
        ) {
            (Some(rest), Some(a), Some(b)) => Some(
                rest.push(PhaseRange { min_ms: a as u32, max_ms: b as u32 }),
            ),
            _ => None,
        }
    }
}

/// How an animation reads: `null` (or anything but an object) is static; an
/// object with a `phases` list is non-uniform; otherwise it needs an unsigned
/// `phase_count` and `phase_duration`. `None` when a number it needs is missing.
pub open spec fn animation_spec(value: Json) -> Option<(AnimationLoop, Option<Seq<PhaseRange>>, u32, u64)> {
    match value {
        Json::Object(_) => {
            let mode = loop_mode_spec(value);
            match field(value, "phases"@) {
                Some(Json::Array(items)) => match phases_spec(items@) {
                    Some(p) => Some((mode, Some(p), 0, 0)),
                    None => None,
                },
                _ => match (
                    as_u64(field(value, "phase_count"@)),
                    as_u64(field(value, "phase_duration"@)),
                ) {
                    (Some(c), Some(d)) => Some((mode, None, c as u32, d)),
                    _ => None,
                },
            }
        },
        _ => Some((AnimationLoop::Infinite, None, 0, 0)),
    }
}

/// Whether `a` is what the animation data `value` reads as.
pub open spec fn reads_as_animation(value: Json, a: SpriteAnimation) -> bool {
    match value {
        Json::Object(_) => match animation_spec(value) {
            Some((mode, Some(p), _, _)) => a matches SpriteAnimation::NonUniform { loop_mode, phases }
                && loop_mode == mode && phases@ == p,
            Some((mode, None, c, d)) => a == SpriteAnimation::Uniform {
                loop_mode: mode,
                phase_count: c,
                phase_duration_ms: d,
            },
            None => false,
        },
        _ => a == SpriteAnimation::Static,
    }
}

#[verifier::loop_isolation(false)]
pub fn read_animation(value: &Json) -> (a: Option<SpriteAnimation>)
    ensures
        a is None <==> animation_spec(*value) is None,
        a matches Some(x) ==> reads_as_animation(*value, x),
{
    proof {
        reveal_strlit("phases");
        reveal_strlit("phase_count");
        reveal_strlit("phase_duration");
    }
    match value {
        Json::Object(_) => {
            let loop_mode = read_loop_mode(value);
            match value.get("phases") {
                Some(Json::Array(items)) => {
                    let mut phases: Vec<PhaseRange> = Vec::new();
                    let mut i: usize = 0;
                    while i < items.len()
                        invariant
                            i <= items@.len(),
                            phases_spec(items@.take(i as int)) == Some(phases@),
                        decreases items@.len() - i,
                    {
                        proof {
                            assert(items@.take(i as int + 1).drop_last() =~= items@.take(i as int));
                        }
                        let a = u64_of(items[i].at(0));
                        let b = u64_of(items[i].at(1));
                        match (a, b) {
                            (Some(a), Some(b)) => {
                                phases.push(PhaseRange { min_ms: a as u32, max_ms: b as u32 });
                            },
                            _ => {
                                proof {
                                    assert(items@.take(i as int + 1).last() == items@[i as int]);
                                    assert(phases_spec(items@.take(i as int + 1)) is None);
                                    lemma_phases_prefix_fails(items@, i as int + 1);
                                }
                                return None;
                            },
                        }
                        i = i + 1;
                    }
                    proof {
                        assert(items@.take(i as int) =~= items@);
                    }
                    Some(SpriteAnimation::NonUniform { loop_mode, phases })
                },
                _ => {
                    let c = u64_of(value.get("phase_count"));
                    let d = u64_of(value.get("phase_duration"));
                    match (c, d) {
                        (Some(c), Some(d)) => Some(
                            SpriteAnimation::Uniform {
                                loop_mode,
                                phase_count: c as u32,
                                phase_duration_ms: d,
                            },
                        ),
                        _ => None,
                    }
                },
            }
        },
        _ => Some(SpriteAnimation::Static),
    }
}

/// Once a prefix of a phase list fails to read, the whole list does.
proof fn lemma_phases_prefix_fails(items: Seq<Json>, k: int)
    requires
        0 < k <= items.len(),
        phases_spec(items.take(k)) is None,
    ensures
        phases_spec(items) is None,
    decreases items.len() - k,
{
    if k == items.len() {
        assert(items.take(k) =~= items);
    } else {
        assert(items.take(k + 1).drop_last() =~= items.take(k));
        lemma_phases_prefix_fails(items, k + 1);
    }
}

/// A list of unsigned integers read as `u32`; `None` when any is not one.
pub open spec fn u32_list(items: Seq<Json>) -> Option<Seq<u32>>
    decreases items.len(),
{
    if items.len() == 0 {
        Some(Seq::empty())
    } else {
        match (u32_list(items.drop_last()), as_u64(Some(items.last()))) {
            (Some(rest), Some(v)) => Some(rest.push(v as u32)),
            _ => None,
        }
    }
}

/// A list of `[x, y, w, h]` boxes; `None` when any number is missing.
pub open spec fn box_list(items: Seq<Json>) -> Option<Seq<SpriteBox>>
    decreases items.len(),
{
    if items.len() == 0 {
        Some(Seq::empty())
    } else {
        let b = items.last();
        match (
            box_list(items.drop_last()),
            as_u64(element(b, 0)),
            as_u64(element(b, 1)),
            as_u64(element(b, 2)),
            as_u64(element(b, 3)),
        ) {
            (Some(rest), Some(x), Some(y), Some(w), Some(h)) => Some(
                rest.push(SpriteBox { min_x: x, min_y: y, max_x: w, max_y: h }),
            ),
            _ => None,
        }
    }
}

/// The list under `key`, when it is one.
pub open spec fn array_field(j: Json, key: Seq<char>) -> Option<Seq<Json>> {
    match field(j, key) {
        Some(Json::Array(items)) => Some(items@),
        _ => None,
    }
}

/// The animation data of a config: its `animation` entry, `null` when absent.
pub open spec fn animation_of(j: Json) -> Json {
    match field(j, "animation"@) {
        Some(a) => a,
        None => Json::Null,
    }
}

/// The art's displacement: the first two numbers of a `shift` list, `(0, 0)`
/// when there is no list; `None` when the list lacks them.
pub open spec fn shift_spec(j: Json) -> Option<(u64, u64)> {
    match field(j, "shift"@) {
        Some(Json::Array(s)) => match (as_u64(element(Json::Array(s), 0)), as_u64(element(Json::Array(s), 1))) {
            (Some(x), Some(y)) => Some((x, y)),
            _ => None,
        },
        _ => Some((0, 0)),
    }
}

/// Whether a config entry has everything a sprite config needs.
pub open spec fn config_readable(j: Json) -> bool {
    &&& as_u64(field(j, "id"@)) is Some
    &&& str_field(j, "group"@) is Some
    &&& as_u64(field(j, "pattern_x"@)) is Some
    &&& as_u64(field(j, "pattern_y"@)) is Some
    &&& as_u64(field(j, "pattern_z"@)) is Some
    &&& as_u64(field(j, "layers"@)) is Some
    &&& array_field(j, "sprite_ids"@) matches Some(ids) && u32_list(ids) is Some
    &&& animation_spec(animation_of(j)) is Some
    &&& array_field(j, "boxes"@) matches Some(bs) && box_list(bs) is Some
    &&& shift_spec(j) is Some
}

/// Whether `c` is what the config entry `j` reads as; numbers are cut to the
/// width of the field they fill.
pub open spec fn reads_as_config(j: Json, c: SpriteConfig) -> bool {
    &&& c.id == as_u64(field(j, "id"@)).unwrap() as u16
    &&& c.group@ == str_field(j, "group"@).unwrap()
    &&& c.pattern_x == as_u64(field(j, "pattern_x"@)).unwrap() as u32
    &&& c.pattern_y == as_u64(field(j, "pattern_y"@)).unwrap() as u32
    &&& c.pattern_z == as_u64(field(j, "pattern_z"@)).unwrap() as u32
    &&& c.layers == as_u64(field(j, "layers"@)).unwrap() as u32
    &&& Some(c.sprite_ids@) == u32_list(array_field(j, "sprite_ids"@).unwrap())
    &&& reads_as_animation(animation_of(j), c.animation)
    &&& Some(c.boxes@) == box_list(array_field(j, "boxes"@).unwrap())
    &&& Some((c.shift_x, c.shift_y)) == shift_spec(j)
}

fn u64_field(j: &Json, key: &str) -> (v: Option<u64>)
    ensures
        v == as_u64(field(*j, key@)),
{
    u64_of(j.get(key))
}

#[verifier::loop_isolation(false)]
fn read_u32_list(items: &Vec<Json>) -> (r: Option<Vec<u32>>)
    ensures
        match r {
            Some(v) => u32_list(items@) == Some(v@),
            None => u32_list(items@) is None,
        },
{
    let mut out: Vec<u32> = Vec::new();
    let mut i: usize = 0;
    while i < items.len()
        invariant
            i <= items@.len(),
            u32_list(items@.take(i as int)) == Some(out@),
        decreases items@.len() - i,
    {
        proof {
            assert(items@.take(i as int + 1).drop_last() =~= items@.take(i as int));
            assert(items@.take(i as int + 1).last() == items@[i as int]);
        }
        match &items[i] {
            Json::UInt(v) => {
                out.push(*v as u32);
            },
            _ => {
                proof {
                    lemma_u32_list_prefix_fails(items@, i as int + 1);
                }
                return None;
            },
        }
        i = i + 1;
    }
    proof {
        assert(items@.take(i as int) =~= items@);
    }
    Some(out)
}

proof fn lemma_u32_list_prefix_fails(items: Seq<Json>, k: int)
    requires
        0 < k <= items.len(),
        u32_list(items.take(k)) is None,
    ensures
        u32_list(items) is None,
    decreases items.len() - k,
{
    if k == items.len() {
        assert(items.take(k) =~= items);
    } else {
        assert(items.take(k + 1).drop_last() =~= items.take(k));
        lemma_u32_list_prefix_fails(items, k + 1);
    }
}

#[verifier::loop_isolation(false)]
fn read_box_list(items: &Vec<Json>) -> (r: Option<Vec<SpriteBox>>)
    ensures
        match r {
            Some(v) => box_list(items@) == Some(v@),
            None => box_list(items@) is None,
        },
{
    let mut out: Vec<SpriteBox> = Vec::new();
    let mut i: usize = 0;
    while i < items.len()
        invariant
            i <= items@.len(),
            box_list(items@.take(i as int)) == Some(out@),
        decreases items@.len() - i,
    {
        proof {
            assert(items@.take(i as int + 1).drop_last() =~= items@.take(i as int));
            assert(items@.take(i as int + 1).last() == items@[i as int]);
        }
        let b = &items[i];
        match (u64_of(b.at(0)), u64_of(b.at(1)), u64_of(b.at(2)), u64_of(b.at(3))) {
            (Some(x), Some(y), Some(w), Some(h)) => {
                out.push(SpriteBox { min_x: x, min_y: y, max_x: w, max_y: h });
            },
            _ => {
                proof {
                    lemma_box_list_prefix_fails(items@, i as int + 1);
                }
                return None;
            },
        }
        i = i + 1;
    }
    proof {
        assert(items@.take(i as int) =~= items@);
    }
    Some(out)
}

proof fn lemma_box_list_prefix_fails(items: Seq<Json>, k: int)
    requires
        0 < k <= items.len(),
        box_list(items.take(k)) is None,
    ensures
        box_list(items) is None,
    decreases items.len() - k,
{
    if k == items.len() {
        assert(items.take(k) =~= items);
    } else {
        assert(items.take(k + 1).drop_last() =~= items.take(k));
        lemma_box_list_prefix_fails(items, k + 1);
    }
}

/// Reads one appearance's config; `None` when the entry lacks something a
/// config needs.
pub fn read_sprite_config(conf: &Json) -> (c: Option<SpriteConfig>)
    ensures
        c is Some <==> config_readable(*conf),
        c matches Some(x) ==> reads_as_config(*conf, x),
{
    proof {
        reveal_strlit("id");
        reveal_strlit("group");
        reveal_strlit("pattern_x");
        reveal_strlit("pattern_y");
        reveal_strlit("pattern_z");
        reveal_strlit("layers");
        reveal_strlit("sprite_ids");
        reveal_strlit("animation");
        reveal_strlit("boxes");
        reveal_strlit("shift");
    }
    let id = match u64_field(conf, "id") {
        Some(v) => v as u16,
        None => {
            return None;
        },
    };
    let group = match conf.get("group") {
        Some(Json::Str(g)) => g.clone(),
        _ => {
            return None;
        },
    };
    let pattern_x = match u64_field(conf, "pattern_x") {
        Some(v) => v as u32,
        None => {
            return None;
        },
    };
    let pattern_y = match u64_field(conf, "pattern_y") {
        Some(v) => v as u32,
        None => {
            return None;
        },
    };
    let pattern_z = match u64_field(conf, "pattern_z") {
        Some(v) => v as u32,
        None => {
            return None;
        },
    };
    let layers = match u64_field(conf, "layers") {
        Some(v) => v as u32,
        None => {
            return None;
        },
    };
    let sprite_ids = match conf.get("sprite_ids") {
        Some(Json::Array(items)) => match read_u32_list(items) {
            Some(v) => v,
            None => {
                return None;
            },
        },
        _ => {
            return None;
        },
    };
    let animation = match conf.get("animation") {
        Some(a) => match read_animation(a) {
            Some(x) => x,
            None => {
                return None;
            },
        },
        None => SpriteAnimation::Static,
    };
    let boxes = match conf.get("boxes") {
        Some(Json::Array(items)) => match read_box_list(items) {
            Some(v) => v,
            None => {
                return None;
            },
        },
        _ => {
            return None;
        },
    };
    let (shift_x, shift_y) = match conf.get("shift") {
        Some(s) => match s {
            Json::Array(_) => match (u64_of(s.at(0)), u64_of(s.at(1))) {
                (Some(x), Some(y)) => (x, y),
                _ => {
                    return None;
                },
            },
            _ => (0, 0),
        },
        None => (0, 0),
    };
    Some(
        SpriteConfig {
            id,
            group,
            pattern_x,
            pattern_y,
            pattern_z,
            layers,
            sprite_ids,
            animation,
            boxes,
            shift_x,
            shift_y,
        },
    )
}

/// The id a config entry files under.
pub open spec fn id_of(j: Json) -> u16 {
    as_u64(field(j, "id"@)).unwrap() as u16
}

/// `items[i]` is the last entry before `n` that files under `k`.
pub open spec fn last_with_id(items: Seq<Json>, k: u16, i: int, n: int) -> bool {
    &&& 0 <= i < n
    &&& id_of(items[i]) == k
    &&& forall|j: int| i < j < n ==> id_of(#[trigger] items[j]) != k
}

/// Whether `m` holds, for every id some entry among the first `n` files under,
/// the config of the last such entry, and nothing else.
pub open spec fn indexes_configs(items: Seq<Json>, n: int, m: Map<u16, Arc<SpriteConfig>>) -> bool {
    &&& forall|k: u16| #[trigger] m.contains_key(k) <==> exists|i: int| 0 <= i < n && id_of(#[trigger] items[i]) == k
    &&& forall|k: u16| #[trigger] m.contains_key(k) ==> exists|i: int|
        #[trigger] last_with_id(items, k, i, n) && reads_as_config(items[i], *m[k])
}

/// Whether every entry of a list is a readable config.
pub open spec fn all_configs_readable(l: Seq<Json>) -> bool {
    forall|i: int| 0 <= i < l.len() ==> #[trigger] config_readable(l[i])
}

/// Whether every entry of a list is a readable outfit.
pub open spec fn all_outfits_readable(l: Seq<Json>) -> bool {
    forall|i: int| 0 <= i < l.len() ==> #[trigger] outfit_readable(l[i])
}

/// Whether the list under `key`, if the document has one, is all readable.
pub open spec fn optional_readable(doc: Json, key: Seq<char>) -> bool {
    match array_field(doc, key) {
        Some(l) => all_configs_readable(l),
        None => true,
    }
}

/// Reads a list of config entries into a map keyed by their ids, a later entry
/// replacing an earlier one of the same id; `None` when any entry is unreadable.
#[verifier::loop_isolation(false)]
pub fn read_config_map(items: &Vec<Json>) -> (r: Option<HashMap<u16, Arc<SpriteConfig>>>)
    ensures
        r is Some <==> all_configs_readable(items@),
        r matches Some(m) ==> indexes_configs(items@, items@.len() as int, m@),
{
    let mut m: HashMap<u16, Arc<SpriteConfig>> = HashMap::new();
    let mut i: usize = 0;
    while i < items.len()
        invariant
            i <= items@.len(),
            forall|k: int| 0 <= k < i ==> #[trigger] config_readable(items@[k]),
            indexes_configs(items@, i as int, m@),
        decreases items@.len() - i,
    {
        match read_sprite_config(&items[i]) {
            Some(c) => {
                let id = c.id;
                let ghost before = m@;
                m.insert(id, Arc::new(c));
                proof {
                    assert(id == id_of(items@[i as int]));
                    assert forall|k: u16| #[trigger] m@.contains_key(k) <==> exists|j: int|
                        0 <= j < i + 1 && id_of(#[trigger] items@[j]) == k by {
                        if k == id {
                            assert(id_of(items@[i as int]) == k);
                        } else if before.contains_key(k) {
                            let j = choose|j: int| 0 <= j < i && id_of(#[trigger] items@[j]) == k;
                            assert(0 <= j < i + 1 && id_of(items@[j]) == k);
                        } else if exists|j: int| 0 <= j < i + 1 && id_of(#[trigger] items@[j]) == k {
                            let j = choose|j: int| 0 <= j < i + 1 && id_of(#[trigger] items@[j]) == k;
                            assert(j < i);
                        }
                    }
                    assert forall|k: u16| #[trigger] m@.contains_key(k) implies exists|j: int|
                        #[trigger] last_with_id(items@, k, j, i + 1) && reads_as_config(items@[j], *m@[k]) by {
                        if k == id {
                            assert(last_with_id(items@, k, i as int, i + 1));
                        } else {
                            let j = choose|j: int|
                                #[trigger] last_with_id(items@, k, j, i as int) && reads_as_config(
                                    items@[j],
                                    *before[k],
                                );
                            assert(last_with_id(items@, k, j, i + 1));
                        }
                    }
                }
            },
            None => {
                return None;
            },
        }
        i = i + 1;
    }
    Some(m)
}

/// An outfit's two configs: standing still and walking.
#[derive(Debug)]
pub struct OutfitSprite {
    pub still_sprite: Arc<SpriteConfig>,
    pub moving_sprite: Arc<SpriteConfig>,
}

/// Whether an outfit entry has an id and two readable configs.
pub open spec fn outfit_readable(j: Json) -> bool {
    &&& as_u64(field(j, "id"@)) is Some
    &&& field(j, "still_sprite"@) matches Some(s) && config_readable(s)
    &&& field(j, "moving_sprite"@) matches Some(s) && config_readable(s)
}

/// Whether `o` is what the outfit entry `j` reads as.
pub open spec fn reads_as_outfit(j: Json, o: OutfitSprite) -> bool {
    &&& reads_as_config(field(j, "still_sprite"@).unwrap(), *o.still_sprite)
    &&& reads_as_config(field(j, "moving_sprite"@).unwrap(), *o.moving_sprite)
}

/// Reads the outfit list into a map keyed by outfit id, a later entry
/// replacing an earlier one; `None` when any entry is unreadable.
#[verifier::loop_isolation(false)]
pub fn read_outfit_map(items: &Vec<Json>) -> (r: Option<HashMap<u16, OutfitSprite>>)
    ensures
        r is Some <==> all_outfits_readable(items@),
        r matches Some(m) ==> forall|k: u16| #[trigger] m@.contains_key(k) <==> exists|i: int|
            0 <= i < items@.len() && id_of(#[trigger] items@[i]) == k,
        r matches Some(m) ==> forall|k: u16| #[trigger] m@.contains_key(k) ==> exists|i: int|
            #[trigger] last_with_id(items@, k, i, items@.len() as int) && reads_as_outfit(items@[i], m@[k]),
{
    proof {
        reveal_strlit("id");
        reveal_strlit("still_sprite");
        reveal_strlit("moving_sprite");
    }
    let mut m: HashMap<u16, OutfitSprite> = HashMap::new();
    let mut i: usize = 0;
    while i < items.len()
        invariant
            i <= items@.len(),
            forall|k: int| 0 <= k < i ==> #[trigger] outfit_readable(items@[k]),
            forall|k: u16| #[trigger] m@.contains_key(k) <==> exists|j: int|
                0 <= j < i && id_of(#[trigger] items@[j]) == k,
            forall|k: u16| #[trigger] m@.contains_key(k) ==> exists|j: int|
                #[trigger] last_with_id(items@, k, j, i as int) && reads_as_outfit(items@[j], m@[k]),
        decreases items@.len() - i,
    {
        let entry = &items[i];
        let id = match u64_field(entry, "id") {
            Some(v) => v as u16,
            None => {
                proof {
                    assert(!outfit_readable(items@[i as int]));
                }
                return None;
            },
        };
        let still = match entry.get("still_sprite") {
            Some(s) => match read_sprite_config(s) {
                Some(c) => c,
                None => {
                    proof {
                        assert(!outfit_readable(items@[i as int]));
                    }
                    return None;
                },
            },
            None => {
                proof {
                    assert(!outfit_readable(items@[i as int]));
                }
                return None;
            },
        };
        let moving = match entry.get("moving_sprite") {
            Some(s) => match read_sprite_config(s) {
                Some(c) => c,
                None => {
                    proof {
                        assert(!outfit_readable(items@[i as int]));
                    }
                    return None;
                },
            },
            None => {
                proof {
                    assert(!outfit_readable(items@[i as int]));
                }
                return None;
            },
        };
        let ghost before = m@;
        m.insert(id, OutfitSprite { still_sprite: Arc::new(still), moving_sprite: Arc::new(moving) });
        proof {
            assert(id == id_of(items@[i as int]));
            assert forall|k: u16| #[trigger] m@.contains_key(k) <==> exists|j: int|
                0 <= j < i + 1 && id_of(#[trigger] items@[j]) == k by {
                if k == id {
                    assert(id_of(items@[i as int]) == k);
                } else if before.contains_key(k) {
                    let j = choose|j: int| 0 <= j < i && id_of(#[trigger] items@[j]) == k;
                    assert(0 <= j < i + 1 && id_of(items@[j]) == k);
                } else if exists|j: int| 0 <= j < i + 1 && id_of(#[trigger] items@[j]) == k {
                    let j = choose|j: int| 0 <= j < i + 1 && id_of(#[trigger] items@[j]) == k;
                    assert(j < i);
                }
            }
            assert forall|k: u16| #[trigger] m@.contains_key(k) implies exists|j: int|
                #[trigger] last_with_id(items@, k, j, i + 1) && reads_as_outfit(items@[j], m@[k]) by {
                if k == id {
                    assert(last_with_id(items@, k, i as int, i + 1));
                } else {
                    let j = choose|j: int|
                        #[trigger] last_with_id(items@, k, j, i as int) && reads_as_outfit(items@[j], before[k]);
                    assert(last_with_id(items@, k, j, i + 1));
                }
            }
        }
        i = i + 1;
    }
    Some(m)
}

/// Every appearance the client draws, by category and id.
#[derive(Debug)]
pub struct SpriteConfigs {
    pub items: HashMap<u16, Arc<SpriteConfig>>,
    pub outfits: HashMap<u16, OutfitSprite>,
    pub effects: HashMap<u16, Arc<SpriteConfig>>,
    pub missiles: HashMap<u16, Arc<SpriteConfig>>,
}

/// Whether the appearance document holds readable item and outfit lists, and
/// readable effect and missile lists where it has them.
pub open spec fn sprites_readable(doc: Json) -> bool {
    &&& array_field(doc, "items"@) matches Some(l) && all_configs_readable(l)
    &&& array_field(doc, "outfits"@) matches Some(l) && all_outfits_readable(l)
    &&& optional_readable(doc, "effects"@)
    &&& optional_readable(doc, "missiles"@)
}

/// The configs of an optional list: none when the document has no such list.
pub open spec fn indexes_optional(doc: Json, key: Seq<char>, m: Map<u16, Arc<SpriteConfig>>) -> bool {
    match array_field(doc, key) {
        Some(l) => indexes_configs(l, l.len() as int, m),
        None => m == Map::<u16, Arc<SpriteConfig>>::empty(),
    }
}

fn read_optional_configs(doc: &Json, key: &str) -> (r: Option<HashMap<u16, Arc<SpriteConfig>>>)
    ensures
        r is Some <==> optional_readable(*doc, key@),
        r matches Some(m) ==> indexes_optional(*doc, key@, m@),
{
    match doc.get(key) {
        Some(Json::Array(items)) => {
            let r = read_config_map(items);
            proof {
                assert(array_field(*doc, key@) == Some(items@));
                if r is None {
                    let i = choose|i: int| 0 <= i < items@.len() && !#[trigger] config_readable(items@[i]);
                    assert(!config_readable(items@[i]));
                }
            }
            r
        },
        _ => {
            proof {
                assert(array_field(*doc, key@) is None);
            }
            Some(HashMap::new())
        },
    }
}

/// Whether `c` is what the appearance document `doc` reads as: its items,
/// effects and missiles indexed by id, and for every outfit id listed the
/// outfit its last entry reads as.
pub open spec fn reads_as_sprites(doc: Json, c: SpriteConfigs) -> bool {
    &&& indexes_configs(
        array_field(doc, "items"@).unwrap(),
        array_field(doc, "items"@).unwrap().len() as int,
        c.items@,
    )
    &&& indexes_optional(doc, "effects"@, c.effects@)
    &&& indexes_optional(doc, "missiles"@, c.missiles@)
    &&& forall|k: u16| #[trigger] c.outfits@.contains_key(k) <==> exists|i: int|
        0 <= i < array_field(doc, "outfits"@).unwrap().len() && id_of(
            #[trigger] array_field(doc, "outfits"@).unwrap()[i],
        ) == k
    &&& forall|k: u16| #[trigger] c.outfits@.contains_key(k) ==> exists|i: int|
        #[trigger] last_with_id(
            array_field(doc, "outfits"@).unwrap(),
            k,
            i,
            array_field(doc, "outfits"@).unwrap().len() as int,
        ) && reads_as_outfit(array_field(doc, "outfits"@).unwrap()[i], c.outfits@[k])
}

/// Reads the appearance document: its items and outfits, which it must have,
/// and its effects and missiles, which it may lack.
pub fn read_sprites_config(doc: &Json) -> (r: Option<SpriteConfigs>)
    ensures
        r is Some <==> sprites_readable(*doc),
        r matches Some(c) ==> reads_as_sprites(*doc, c),
{
    proof {
        reveal_strlit("items");
        reveal_strlit("outfits");
        reveal_strlit("effects");
        reveal_strlit("missiles");
    }
    let items = match doc.get("items") {
        Some(Json::Array(list)) => match read_config_map(list) {
            Some(m) => m,
            None => {
                proof {
                    assert(array_field(*doc, "items"@) == Some(list@));
                    let i = choose|i: int| 0 <= i < list@.len() && !#[trigger] config_readable(list@[i]);
                    assert(!config_readable(list@[i]));
                }
                return None;
            },
        },
        _ => {
            return None;
        },
    };
    let outfits = match doc.get("outfits") {
        Some(Json::Array(list)) => match read_outfit_map(list) {
            Some(m) => m,
            None => {
                proof {
                    assert(array_field(*doc, "outfits"@) == Some(list@));
                    let i = choose|i: int| 0 <= i < list@.len() && !#[trigger] outfit_readable(list@[i]);
                    assert(!outfit_readable(list@[i]));
                }
                return None;
            },
        },
        _ => {
            return None;
        },
    };
    let effects = match read_optional_configs(doc, "effects") {
        Some(m) => m,
        None => {
            return None;
        },
    };
    let missiles = match read_optional_configs(doc, "missiles") {
        Some(m) => m,
        None => {
            return None;
        },
    };
    Some(SpriteConfigs { items, outfits, effects, missiles })
}

/// A sprite sheet as the sheet list describes it: its file, the group it
/// draws, its grid of cells and the size of one cell, in pixels.
#[derive(Debug)]
pub struct SheetEntry {
    pub sheet_name: String,
    pub group: String,
    pub grid_size: (u64, u64),
    pub sprite_size: (u64, u64),
}

pub open spec fn pair_field(j: Json, key: Seq<char>) -> Option<(u64, u64)> {
    match field(j, key) {
        Some(p) => match (as_u64(element(p, 0)), as_u64(element(p, 1))) {
            (Some(a), Some(b)) => Some((a, b)),
            _ => None,
        },
        None => None,
    }
}

/// Whether `e` is what the sheet entry `j` reads as.
pub open spec fn reads_as_sheet(j: Json, e: SheetEntry) -> bool {
    &&& Some(e.grid_size) == pair_field(j, "grid_size"@)
    &&& Some(e.sprite_size) == pair_field(j, "sprite_size"@)
    &&& Some(e.sheet_name@) == str_field(j, "sheet_name"@)
    &&& Some(e.group@) == str_field(j, "group"@)
}

pub open spec fn sheet_readable(j: Json) -> bool {
    &&& pair_field(j, "grid_size"@) is Some
    &&& pair_field(j, "sprite_size"@) is Some
    &&& str_field(j, "sheet_name"@) is Some
    &&& str_field(j, "group"@) is Some
}

fn read_pair(j: &Json, key: &str) -> (r: Option<(u64, u64)>)
    ensures
        r == pair_field(*j, key@),
{
    match j.get(key) {
        Some(p) => match (u64_of(p.at(0)), u64_of(p.at(1))) {
            (Some(a), Some(b)) => Some((a, b)),
            _ => None,
        },
        None => None,
    }
}

fn read_str(j: &Json, key: &str) -> (r: Option<String>)
    ensures
        match r {
            Some(s) => str_field(*j, key@) == Some(s@),
            None => str_field(*j, key@) is None,
        },
{
    match j.get(key) {
        Some(Json::Str(s)) => Some(s.clone()),
        _ => None,
    }
}

/// Whether the sheet list `doc` is a list of readable entries.
pub open spec fn sheets_readable(doc: Json) -> bool {
    doc matches Json::Array(l) && forall|i: int| 0 <= i < l@.len() ==> #[trigger] sheet_readable(l@[i])
}

/// Whether `v` is what the sheet list `doc` reads as, entry for entry.
pub open spec fn reads_as_sheets(doc: Json, v: Seq<SheetEntry>) -> bool {
    doc matches Json::Array(l) && v.len() == l@.len() && forall|i: int|
        0 <= i < l@.len() ==> #[trigger] reads_as_sheet(l@[i], v[i])
}

/// Reads the sheet list; `None` when it is not a list or an entry lacks a field.
#[verifier::loop_isolation(false)]
pub fn read_sprite_sheets(doc: &Json) -> (r: Option<Vec<SheetEntry>>)
    ensures
        r is Some <==> sheets_readable(*doc),
        r matches Some(v) ==> reads_as_sheets(*doc, v@),
{
    proof {
        reveal_strlit("grid_size");
        reveal_strlit("sprite_size");
        reveal_strlit("sheet_name");
        reveal_strlit("group");
    }
    let list = match doc {
        Json::Array(l) => l,
        _ => {
            return None;
        },
    };
    let mut out: Vec<SheetEntry> = Vec::new();
    let mut i: usize = 0;
    while i < list.len()
        invariant
            i <= list@.len(),
            out@.len() == i,
            forall|k: int| 0 <= k < i ==> #[trigger] sheet_readable(list@[k]),
            forall|k: int| 0 <= k < i ==> #[trigger] reads_as_sheet(list@[k], out@[k]),
        decreases list@.len() - i,
    {
        let entry = &list[i];
        let grid_size = match read_pair(entry, "grid_size") {
            Some(p) => p,
            None => {
                proof {
                    assert(!sheet_readable(list@[i as int]));
                }
                return None;
            },
        };
        let sprite_size = match read_pair(entry, "sprite_size") {
            Some(p) => p,
            None => {
                proof {
                    assert(!sheet_readable(list@[i as int]));
                }
                return None;
            },
        };
        let sheet_name = match read_str(entry, "sheet_name") {
            Some(s) => s,
            None => {
                proof {
                    assert(!sheet_readable(list@[i as int]));
                }
                return None;
            },
        };
        let group = match read_str(entry, "group") {
            Some(s) => s,
            None => {
                proof {
                    assert(!sheet_readable(list@[i as int]));
                }
                return None;
            },
        };
        out.push(SheetEntry { sheet_name, group, grid_size, sprite_size });
        i = i + 1;
    }
    Some(out)
}


/// `serde_json::Value`, the tree a JSON text parses to. Only `json_of_value`
/// looks inside it.
#[verifier::external_type_specification]
#[verifier::external_body]
pub struct ExJsonValue(serde_json::Value);

/// The document a JSON text spells, in the library's shape; `None` when the
/// text is not JSON.
pub uninterp spec fn json_document(text: Seq<char>) -> Option<Json>;

/// The tree `serde_json` parsed, node for node in the library's shape: a number
/// that `as_u64` reads is `UInt`, else one that `as_i64` reads is `NegInt`, else
/// `OtherNumber`; objects keep their entries in the order the tree holds them.
/// It is the conversion half of `parse_json` and nothing else calls it.
#[verifier::external_body]
fn json_of_value(value: &serde_json::Value) -> Json {
    match value {
        serde_json::Value::Null => Json::Null,
        serde_json::Value::Bool(b) => Json::Bool(*b),
        serde_json::Value::Number(n) => match (n.as_u64(), n.as_i64()) {
            (Some(u), _) => Json::UInt(u),
            (None, Some(i)) => Json::NegInt(i),
            _ => Json::OtherNumber,
        },
        serde_json::Value::String(t) => Json::Str(t.clone()),
        serde_json::Value::Array(items) => Json::Array(items.iter().map(json_of_value).collect()),
        serde_json::Value::Object(fields) => Json::Object(fields.iter().map(|(k, v)| (k.clone(), json_of_value(v))).collect()),
    }
}

/// Parses a JSON text. Calls `serde_json::from_str` into a `serde_json::Value`,
/// which fails exactly when the text is not JSON, and converts the tree. What
/// the document is, is named by `json_document`: it is a function of the text
/// alone.
#[verifier::external_body]
fn parse_json(text: &str) -> (j: Option<Json>)
    ensures
        j == json_document(text@),
{
    match serde_json::from_str::<serde_json::Value>(text) {
        Ok(value) => Some(json_of_value(&value)),
        Err(_) => None,
    }
}

/// Reads the appearance data from the text of its file: `None` when the text is
/// not JSON or the document lacks something a config needs.
pub fn parse_sprites_config(text: &str) -> (r: Option<SpriteConfigs>)
    ensures
        match json_document(text@) {
            None => r is None,
            Some(doc) => (r is Some <==> sprites_readable(doc)) && (r matches Some(c) ==> reads_as_sprites(
                doc,
                c,
            )),
        },
{
    match parse_json(text) {
        None => None,
        Some(doc) => read_sprites_config(&doc),
    }
}

/// Reads the sheet list from the text of its file: `None` when the text is not
/// JSON, not a list, or an entry lacks a field.
pub fn parse_sprite_sheets(text: &str) -> (r: Option<Vec<SheetEntry>>)
    ensures
        match json_document(text@) {
            None => r is None,
            Some(doc) => (r is Some <==> sheets_readable(doc)) && (r matches Some(v) ==> reads_as_sheets(
                doc,
                v@,
            )),
        },
{
    match parse_json(text) {
        None => None,
        Some(doc) => read_sprite_sheets(&doc),
    }
}
} // verus!
