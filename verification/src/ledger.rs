//! What the frames in flight own on the device, in the order of creation and
//! in the order of release.
use vstd::prelude::*;

verus! {

/// A thing that a slot owns.
#[derive(Clone, Copy, Debug, PartialEq, Eq, Hash, Structural)]
pub enum Thing {
    Uniforms,
    /// Instances of the top-level structure.
    Instances,
    /// Storage of the top-level structure.
    Storage,
    /// Scratch for building the top-level structure.
    Scratch,
    Cone,
    Ribbons,
    ConeIndices,
    RibbonIndices,
}

/// Something that is created once and released once.
#[derive(Clone, Copy, Debug, PartialEq, Eq, Hash, Structural)]
pub enum Resource {
    FramePool,
    EffectPool,
    Buffer(Thing, u32),
    Memory(Thing, u32),
    /// The top-level structure of a slot.
    Structure(u32),
}

/// Buffer and memory of a thing.
pub open spec fn pair(t: Thing, slot: u32) -> Seq<Resource> {
    seq![Resource::Buffer(t, slot), Resource::Memory(t, slot)]
}

/// What a slot needs for its descriptors, in order of creation.
pub open spec fn frame_slot(slot: u32, shadows: bool) -> Seq<Resource> {
    if shadows {
        pair(Thing::Uniforms, slot) + pair(Thing::Instances, slot) + pair(Thing::Storage, slot)
            + pair(Thing::Scratch, slot) + seq![Resource::Structure(slot)]
    } else {
        pair(Thing::Uniforms, slot)
    }
}

/// What a slot needs for its effects, in order of creation.
pub open spec fn effect_slot(slot: u32) -> Seq<Resource> {
    pair(Thing::Cone, slot) + pair(Thing::Ribbons, slot) + pair(Thing::ConeIndices, slot) + pair(
        Thing::RibbonIndices,
        slot,
    )
}

/// What the first `n` slots need for their descriptors.
pub open spec fn frame_slots(n: nat, shadows: bool) -> Seq<Resource>
    decreases n,
{
    if n == 0 {
        Seq::empty()
    } else {
        frame_slots((n - 1) as nat, shadows) + frame_slot((n - 1) as u32, shadows)
    }
}

/// What the first `n` slots need for their effects.
pub open spec fn effect_slots(n: nat) -> Seq<Resource>
    decreases n,
{
    if n == 0 {
        Seq::empty()
    } else {
        effect_slots((n - 1) as nat) + effect_slot((n - 1) as u32)
    }
}

/// All resources in the order of creation.
pub open spec fn created(slots: nat, shadows: bool) -> Seq<Resource> {
    seq![Resource::FramePool] + frame_slots(slots, shadows) + seq![Resource::EffectPool]
        + effect_slots(slots)
}

/// One resource of each slot.
pub open spec fn buffers(t: Thing, n: nat) -> Seq<Resource> {
    Seq::new(n, |i: int| Resource::Buffer(t, i as u32))
}

/// One resource of each slot.
pub open spec fn memories(t: Thing, n: nat) -> Seq<Resource> {
    Seq::new(n, |i: int| Resource::Memory(t, i as u32))
}

/// One resource of each slot.
pub open spec fn structures(n: nat) -> Seq<Resource> {
    Seq::new(n, |i: int| Resource::Structure(i as u32))
}

/// What is released before the effect pool.
pub open spec fn released_effects(n: nat) -> Seq<Resource> {
    memories(Thing::ConeIndices, n) + buffers(Thing::ConeIndices, n) + memories(
        Thing::RibbonIndices,
        n,
    ) + buffers(Thing::RibbonIndices, n) + memories(Thing::Cone, n) + buffers(Thing::Cone, n)
        + memories(Thing::Ribbons, n) + buffers(Thing::Ribbons, n)
}

/// What the traced shadows release.
pub open spec fn released_shadows(n: nat) -> Seq<Resource> {
    buffers(Thing::Scratch, n) + memories(Thing::Scratch, n) + structures(n) + buffers(
        Thing::Storage,
        n,
    ) + memories(Thing::Storage, n) + memories(Thing::Instances, n) + buffers(Thing::Instances, n)
}

/// All resources in the order of release.
pub open spec fn released(slots: nat, shadows: bool) -> Seq<Resource> {
    let base = released_effects(slots) + seq![Resource::EffectPool] + memories(
        Thing::Uniforms,
        slots,
    ) + buffers(Thing::Uniforms, slots) + seq![Resource::FramePool];
    if shadows {
        base + released_shadows(slots)
    } else {
        base
    }
}

fn push_pair(out: &mut Vec<Resource>, t: Thing, slot: u32)
    ensures
        final(out)@ == old(out)@ + pair(t, slot),
{
    out.push(Resource::Buffer(t, slot));
    out.push(Resource::Memory(t, slot));
    assert(out@ =~= old(out)@ + pair(t, slot));
}

/// List what to create for `slots` slots.
pub fn creation(slots: u32, shadows: bool) -> (r: Vec<Resource>)
    ensures
        r@ == created(slots as nat, shadows),
{
    let mut out: Vec<Resource> = Vec::new();
    out.push(Resource::FramePool);
    let ghost head = seq![Resource::FramePool];
    assert(out@ =~= head + frame_slots(0, shadows));
    let mut slot: u32 = 0;
    while slot < slots
        invariant
            slot <= slots,
            out@ == head + frame_slots(slot as nat, shadows),
        decreases slots - slot,
    {
        let ghost before = out@;
        push_pair(&mut out, Thing::Uniforms, slot);
        if shadows {
            push_pair(&mut out, Thing::Instances, slot);
            push_pair(&mut out, Thing::Storage, slot);
            push_pair(&mut out, Thing::Scratch, slot);
            out.push(Resource::Structure(slot));
        }
        assert(out@ =~= before + frame_slot(slot, shadows));
        slot += 1;
        assert(out@ =~= head + frame_slots(slot as nat, shadows));
    }
    out.push(Resource::EffectPool);
    let ghost body = head + frame_slots(slots as nat, shadows) + seq![Resource::EffectPool];
    assert(out@ =~= body + effect_slots(0));
    let mut slot: u32 = 0;
    while slot < slots
        invariant
            slot <= slots,
            out@ == body + effect_slots(slot as nat),
        decreases slots - slot,
    {
        let ghost before = out@;
        push_pair(&mut out, Thing::Cone, slot);
        push_pair(&mut out, Thing::Ribbons, slot);
        push_pair(&mut out, Thing::ConeIndices, slot);
        push_pair(&mut out, Thing::RibbonIndices, slot);
        assert(out@ =~= before + effect_slot(slot));
        slot += 1;
        assert(out@ =~= body + effect_slots(slot as nat));
    }
    out
}

fn push_buffers(out: &mut Vec<Resource>, t: Thing, slots: u32)
    ensures
        final(out)@ == old(out)@ + buffers(t, slots as nat),
{
    let mut i: u32 = 0;
    assert(out@ =~= old(out)@ + buffers(t, 0));
    while i < slots
        invariant
            i <= slots,
            out@ == old(out)@ + buffers(t, i as nat),
        decreases slots - i,
    {
        out.push(Resource::Buffer(t, i));
        i += 1;
        assert(out@ =~= old(out)@ + buffers(t, i as nat));
    }
}

fn push_memories(out: &mut Vec<Resource>, t: Thing, slots: u32)
    ensures
        final(out)@ == old(out)@ + memories(t, slots as nat),
{
    let mut i: u32 = 0;
    assert(out@ =~= old(out)@ + memories(t, 0));
    while i < slots
        invariant
            i <= slots,
            out@ == old(out)@ + memories(t, i as nat),
        decreases slots - i,
    {
        out.push(Resource::Memory(t, i));
        i += 1;
        assert(out@ =~= old(out)@ + memories(t, i as nat));
    }
}

fn push_structures(out: &mut Vec<Resource>, slots: u32)
    ensures
        final(out)@ == old(out)@ + structures(slots as nat),
{
    let mut i: u32 = 0;
    assert(out@ =~= old(out)@ + structures(0));
    while i < slots
        invariant
            i <= slots,
            out@ == old(out)@ + structures(i as nat),
        decreases slots - i,
    {
        out.push(Resource::Structure(i));
        i += 1;
        assert(out@ =~= old(out)@ + structures(i as nat));
    }
}

/// List what to release for `slots` slots.
pub fn release(slots: u32, shadows: bool) -> (r: Vec<Resource>)
    ensures
        r@ == released(slots as nat, shadows),
{
    let mut out: Vec<Resource> = Vec::new();
    push_memories(&mut out, Thing::ConeIndices, slots);
    push_buffers(&mut out, Thing::ConeIndices, slots);
    push_memories(&mut out, Thing::RibbonIndices, slots);
    push_buffers(&mut out, Thing::RibbonIndices, slots);
    push_memories(&mut out, Thing::Cone, slots);
    push_buffers(&mut out, Thing::Cone, slots);
    push_memories(&mut out, Thing::Ribbons, slots);
    push_buffers(&mut out, Thing::Ribbons, slots);
    assert(out@ =~= released_effects(slots as nat));
    out.push(Resource::EffectPool);
    assert(out@ =~= released_effects(slots as nat) + seq![Resource::EffectPool]);
    push_memories(&mut out, Thing::Uniforms, slots);
    push_buffers(&mut out, Thing::Uniforms, slots);
    let ghost most = out@;
    out.push(Resource::FramePool);
    assert(out@ =~= most + seq![Resource::FramePool]);
    if shadows {
        let ghost base = out@;
        push_buffers(&mut out, Thing::Scratch, slots);
        push_memories(&mut out, Thing::Scratch, slots);
        push_structures(&mut out, slots);
        push_buffers(&mut out, Thing::Storage, slots);
        push_memories(&mut out, Thing::Storage, slots);
        push_memories(&mut out, Thing::Instances, slots);
        push_buffers(&mut out, Thing::Instances, slots);
        assert(out@ =~= base + released_shadows(slots as nat));
    }
    out
}

// ---------------------------------------------------------------------------
// Nothing is lost and nothing is released twice
// ---------------------------------------------------------------------------

/// How often a resource stands in a list.
pub open spec fn times(list: Seq<Resource>, r: Resource) -> int
    decreases list.len(),
{
    if list.len() == 0 {
        0
    } else {
        times(list.drop_last(), r) + once(list.last() == r)
    }
}

/// One where something holds, else zero.
pub open spec fn once(b: bool) -> int {
    if b {
        1
    } else {
        0
    }
}

/// A thing that only traced shadows need.
pub open spec fn for_shadows(t: Thing) -> bool {
    t == Thing::Instances || t == Thing::Storage || t == Thing::Scratch
}

/// The frames own a resource.
pub open spec fn owned(slots: nat, shadows: bool, r: Resource) -> bool {
    match r {
        Resource::FramePool | Resource::EffectPool => true,
        Resource::Buffer(t, slot) | Resource::Memory(t, slot) => slot < slots && (for_shadows(t)
            ==> shadows),
        Resource::Structure(slot) => slot < slots && shadows,
    }
}

proof fn times_joined(a: Seq<Resource>, b: Seq<Resource>, r: Resource)
    ensures
        times(a + b, r) == times(a, r) + times(b, r),
    decreases b.len(),
{
    if b.len() == 0 {
        assert(a + b =~= a);
    } else {
        times_joined(a, b.drop_last(), r);
        assert((a + b).drop_last() =~= a + b.drop_last());
    }
}

proof fn times_one(x: Resource, r: Resource)
    ensures
        times(seq![x], r) == once(x == r),
{
    assert(seq![x].drop_last() =~= Seq::empty());
    assert(times(seq![x].drop_last(), r) == 0);
}

proof fn times_pair(t: Thing, slot: u32, r: Resource)
    ensures
        times(pair(t, slot), r) == once(Resource::Buffer(t, slot) == r) + once(
            Resource::Memory(t, slot) == r,
        ),
{
    let p = pair(t, slot);
    times_one(Resource::Buffer(t, slot), r);
    assert(p.drop_last() =~= seq![Resource::Buffer(t, slot)]);
}

proof fn times_buffers(t: Thing, n: nat, r: Resource)
    requires
        n <= u32::MAX,
    ensures
        times(buffers(t, n), r) == once(r matches Resource::Buffer(x, slot) && x == t && slot < n),
    decreases n,
{
    if n > 0 {
        times_buffers(t, (n - 1) as nat, r);
        assert(buffers(t, n).drop_last() =~= buffers(t, (n - 1) as nat));
    }
}

proof fn times_memories(t: Thing, n: nat, r: Resource)
    requires
        n <= u32::MAX,
    ensures
        times(memories(t, n), r) == once(
            r matches Resource::Memory(x, slot) && x == t && slot < n,
        ),
    decreases n,
{
    if n > 0 {
        times_memories(t, (n - 1) as nat, r);
        assert(memories(t, n).drop_last() =~= memories(t, (n - 1) as nat));
    }
}

proof fn times_structures(n: nat, r: Resource)
    requires
        n <= u32::MAX,
    ensures
        times(structures(n), r) == once(r matches Resource::Structure(slot) && slot < n),
    decreases n,
{
    if n > 0 {
        times_structures((n - 1) as nat, r);
        assert(structures(n).drop_last() =~= structures((n - 1) as nat));
    }
}

/// A resource that a slot's descriptors need.
spec fn of_frame(n: nat, shadows: bool, r: Resource) -> bool {
    match r {
        Resource::Buffer(t, slot) | Resource::Memory(t, slot) => slot < n && (t == Thing::Uniforms
            || shadows && for_shadows(t)),
        Resource::Structure(slot) => slot < n && shadows,
        _ => false,
    }
}

proof fn times_frame_slots(n: nat, shadows: bool, r: Resource)
    requires
        n <= u32::MAX,
    ensures
        times(frame_slots(n, shadows), r) == once(of_frame(n, shadows, r)),
    decreases n,
{
    if n > 0 {
        let slot = (n - 1) as u32;
        times_frame_slots((n - 1) as nat, shadows, r);
        times_joined(frame_slots((n - 1) as nat, shadows), frame_slot(slot, shadows), r);
        times_pair(Thing::Uniforms, slot, r);
        if shadows {
            let u = pair(Thing::Uniforms, slot);
            let i = pair(Thing::Instances, slot);
            let s = pair(Thing::Storage, slot);
            let c = pair(Thing::Scratch, slot);
            times_pair(Thing::Instances, slot, r);
            times_pair(Thing::Storage, slot, r);
            times_pair(Thing::Scratch, slot, r);
            times_one(Resource::Structure(slot), r);
            times_joined(u, i, r);
            times_joined(u + i, s, r);
            times_joined(u + i + s, c, r);
            times_joined(u + i + s + c, seq![Resource::Structure(slot)], r);
        }
    }
}

/// A resource that a slot's effects need.
spec fn of_effects(n: nat, r: Resource) -> bool {
    match r {
        Resource::Buffer(t, slot) | Resource::Memory(t, slot) => slot < n && t != Thing::Uniforms
            && !for_shadows(t),
        _ => false,
    }
}

proof fn times_effect_slots(n: nat, r: Resource)
    requires
        n <= u32::MAX,
    ensures
        times(effect_slots(n), r) == once(of_effects(n, r)),
    decreases n,
{
    if n > 0 {
        let slot = (n - 1) as u32;
        times_effect_slots((n - 1) as nat, r);
        times_joined(effect_slots((n - 1) as nat), effect_slot(slot), r);
        let a = pair(Thing::Cone, slot);
        let b = pair(Thing::Ribbons, slot);
        let c = pair(Thing::ConeIndices, slot);
        let d = pair(Thing::RibbonIndices, slot);
        times_pair(Thing::Cone, slot, r);
        times_pair(Thing::Ribbons, slot, r);
        times_pair(Thing::ConeIndices, slot, r);
        times_pair(Thing::RibbonIndices, slot, r);
        times_joined(a, b, r);
        times_joined(a + b, c, r);
        times_joined(a + b + c, d, r);
    }
}

proof fn times_created(slots: nat, shadows: bool, r: Resource)
    requires
        slots <= u32::MAX,
    ensures
        times(created(slots, shadows), r) == once(owned(slots, shadows, r)),
{
    let a = seq![Resource::FramePool];
    let b = frame_slots(slots, shadows);
    let c = seq![Resource::EffectPool];
    let d = effect_slots(slots);
    times_one(Resource::FramePool, r);
    times_one(Resource::EffectPool, r);
    times_frame_slots(slots, shadows, r);
    times_effect_slots(slots, r);
    times_joined(a, b, r);
    times_joined(a + b, c, r);
    times_joined(a + b + c, d, r);
}

proof fn times_released_effects(n: nat, r: Resource)
    requires
        n <= u32::MAX,
    ensures
        times(released_effects(n), r) == once(of_effects(n, r)),
{
    let a = memories(Thing::ConeIndices, n);
    let b = buffers(Thing::ConeIndices, n);
    let c = memories(Thing::RibbonIndices, n);
    let d = buffers(Thing::RibbonIndices, n);
    let e = memories(Thing::Cone, n);
    let f = buffers(Thing::Cone, n);
    let g = memories(Thing::Ribbons, n);
    let h = buffers(Thing::Ribbons, n);
    times_memories(Thing::ConeIndices, n, r);
    times_buffers(Thing::ConeIndices, n, r);
    times_memories(Thing::RibbonIndices, n, r);
    times_buffers(Thing::RibbonIndices, n, r);
    times_memories(Thing::Cone, n, r);
    times_buffers(Thing::Cone, n, r);
    times_memories(Thing::Ribbons, n, r);
    times_buffers(Thing::Ribbons, n, r);
    times_joined(a, b, r);
    times_joined(a + b, c, r);
    times_joined(a + b + c, d, r);
    times_joined(a + b + c + d, e, r);
    times_joined(a + b + c + d + e, f, r);
    times_joined(a + b + c + d + e + f, g, r);
    times_joined(a + b + c + d + e + f + g, h, r);
}

proof fn times_released_shadows(n: nat, r: Resource)
    requires
        n <= u32::MAX,
    ensures
        times(released_shadows(n), r) == once(
            match r {
                Resource::Buffer(t, slot) | Resource::Memory(t, slot) => slot < n && for_shadows(t),
                Resource::Structure(slot) => slot < n,
                _ => false,
            },
        ),
{
    let a = buffers(Thing::Scratch, n);
    let b = memories(Thing::Scratch, n);
    let c = structures(n);
    let d = buffers(Thing::Storage, n);
    let e = memories(Thing::Storage, n);
    let f = memories(Thing::Instances, n);
    let g = buffers(Thing::Instances, n);
    times_buffers(Thing::Scratch, n, r);
    times_memories(Thing::Scratch, n, r);
    times_structures(n, r);
    times_buffers(Thing::Storage, n, r);
    times_memories(Thing::Storage, n, r);
    times_memories(Thing::Instances, n, r);
    times_buffers(Thing::Instances, n, r);
    times_joined(a, b, r);
    times_joined(a + b, c, r);
    times_joined(a + b + c, d, r);
    times_joined(a + b + c + d, e, r);
    times_joined(a + b + c + d + e, f, r);
    times_joined(a + b + c + d + e + f, g, r);
}

proof fn times_released(slots: nat, shadows: bool, r: Resource)
    requires
        slots <= u32::MAX,
    ensures
        times(released(slots, shadows), r) == once(owned(slots, shadows, r)),
{
    let a = released_effects(slots);
    let b = seq![Resource::EffectPool];
    let c = memories(Thing::Uniforms, slots);
    let d = buffers(Thing::Uniforms, slots);
    let e = seq![Resource::FramePool];
    times_released_effects(slots, r);
    times_one(Resource::EffectPool, r);
    times_memories(Thing::Uniforms, slots, r);
    times_buffers(Thing::Uniforms, slots, r);
    times_one(Resource::FramePool, r);
    times_joined(a, b, r);
    times_joined(a + b, c, r);
    times_joined(a + b + c, d, r);
    times_joined(a + b + c + d, e, r);
    if shadows {
        times_released_shadows(slots, r);
        times_joined(a + b + c + d + e, released_shadows(slots), r);
    }
}

/// The frames release just what they created: each resource that they own is
/// created once and released once, and there is no other.
pub proof fn everything_created_is_released(slots: u32, shadows: bool, r: Resource)
    ensures
        times(created(slots as nat, shadows), r) == once(owned(slots as nat, shadows, r)),
        times(released(slots as nat, shadows), r) == once(owned(slots as nat, shadows, r)),
{
    times_created(slots as nat, shadows, r);
    times_released(slots as nat, shadows, r);
}

// ---------------------------------------------------------------------------
// Nothing is used before it is there, or after it is gone
// ---------------------------------------------------------------------------

/// One resource stands before another in a list.
pub open spec fn before(list: Seq<Resource>, a: Resource, b: Resource) -> bool {
    exists|i: int, j: int|
        0 <= i < j < list.len() && #[trigger] list[i] == a && #[trigger] list[j] == b
}

proof fn frame_slots_at(n: nat, s: int, i: int)
    requires
        0 <= s < n,
        0 <= i < 9,
    ensures
        frame_slots(n, true).len() == 9 * n,
        frame_slots(n, true)[9 * s + i] == frame_slot(s as u32, true)[i],
    decreases n,
{
    frame_slots_length(n);
    frame_slots_length((n - 1) as nat);
    if s < n - 1 {
        frame_slots_at((n - 1) as nat, s, i);
    }
}

proof fn frame_slots_length(n: nat)
    ensures
        frame_slots(n, true).len() == 9 * n,
    decreases n,
{
    if n > 0 {
        frame_slots_length((n - 1) as nat);
    }
}

/// A structure is created in storage that is there, and the storage goes only
/// when the structure is gone. The pool of the frames comes first of all, and
/// outlives the pool of the effects.
pub proof fn structures_live_in_their_storage(slots: u32, slot: u32)
    requires
        slot < slots,
    ensures
        before(
            created(slots as nat, true),
            Resource::Buffer(Thing::Storage, slot),
            Resource::Structure(slot),
        ),
        before(
            created(slots as nat, true),
            Resource::Memory(Thing::Storage, slot),
            Resource::Structure(slot),
        ),
        before(
            created(slots as nat, true),
            Resource::Memory(Thing::Scratch, slot),
            Resource::Structure(slot),
        ),
        before(
            released(slots as nat, true),
            Resource::Structure(slot),
            Resource::Buffer(Thing::Storage, slot),
        ),
        before(
            released(slots as nat, true),
            Resource::Structure(slot),
            Resource::Memory(Thing::Storage, slot),
        ),
        before(created(slots as nat, true), Resource::FramePool, Resource::EffectPool),
        before(released(slots as nat, true), Resource::EffectPool, Resource::FramePool),
        before(
            created(slots as nat, true),
            Resource::FramePool,
            Resource::Buffer(Thing::Uniforms, slot),
        ),
{
    let (n, s) = (slots as nat, slot as int);
    let c = created(n, true);
    frame_slots_at(n, s, 0);
    frame_slots_at(n, s, 4);
    frame_slots_at(n, s, 5);
    frame_slots_at(n, s, 7);
    frame_slots_at(n, s, 8);
    assert(c[1 + 9 * s] == Resource::Buffer(Thing::Uniforms, slot));
    assert(c[1 + 9 * s + 4] == Resource::Buffer(Thing::Storage, slot));
    assert(c[1 + 9 * s + 5] == Resource::Memory(Thing::Storage, slot));
    assert(c[1 + 9 * s + 7] == Resource::Memory(Thing::Scratch, slot));
    assert(c[1 + 9 * s + 8] == Resource::Structure(slot));
    assert(c[0] == Resource::FramePool);
    assert(c[1 + 9 * n as int] == Resource::EffectPool);
    let r = released(n, true);
    let base = 10 * n as int + 2;
    assert(released_effects(n).len() == 8 * n);
    assert(r[8 * n as int] == Resource::EffectPool);
    assert(r[base - 1] == Resource::FramePool);
    let shadows = released_shadows(n);
    assert(shadows[2 * n + s] == Resource::Structure(slot));
    assert(shadows[3 * n + s] == Resource::Buffer(Thing::Storage, slot));
    assert(shadows[4 * n + s] == Resource::Memory(Thing::Storage, slot));
    assert(r[base + 2 * n + s] == Resource::Structure(slot));
    assert(r[base + 3 * n + s] == Resource::Buffer(Thing::Storage, slot));
    assert(r[base + 4 * n + s] == Resource::Memory(Thing::Storage, slot));
}

} // verus!
