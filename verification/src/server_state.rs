//! Server state tracking — tick, teleport, chunk loading, inventory and item
//! entities. Positions and rotations, which are floating point, stay with the
//! caller; the chunk the player stands in is handed in where it matters, and
//! item positions are kept as the bits of their `f64` coordinates.
use vstd::prelude::*;
use bytes::BytesMut;
use crate::buffers::{be_bytes, bytes_mut_new, bytes_mut_put_u8, bytes_mut_view, put_i16, unsigned16};
use crate::varint::{varint_of, VarInt};

verus! {

pub const VIEW_RADIUS: i32 = 4;
/// 9 hotbar + 27 main + 4 armor + 1 offhand + 5 crafting.
pub const INVENTORY_SIZE: usize = 46;
/// Slots that pickups fill: hotbar (0–8) and main (9–35).
pub const PICKUP_SLOTS: usize = 36;
/// The most items one slot holds.
pub const MAX_STACK: i32 = 64;

/// A packet that the play logic queues or sends, by name.
#[derive(Debug, Clone, Copy, PartialEq, Eq, Structural)]
pub enum PlayPacket {
    AddEntity,
    SetEntityData,
    TakeItemEntity,
    ContainerSetSlot,
    BlockUpdate,
    KeepAlive,
    SetTime,
    TickingState,
    TickingStep,
    ChunkBatchStart,
    LevelChunk,
    ChunkBatchFinished,
}

/// A dropped item entity on the ground; its position is the bits of `f64`s.
#[derive(Debug, Clone, Copy)]
pub struct ItemEntity {
    pub entity_id: i32,
    pub item_id: i32,
    pub count: i32,
    pub x: u64,
    pub y: u64,
    pub z: u64,
}

/// A single item stack in inventory.
#[derive(Debug, Clone, Copy, PartialEq, Eq, Structural)]
pub struct ItemStack {
    pub item_id: i32,
    pub count: i32,
}

pub struct ServerState {
    pub player_entity_id: i32,
    pub player_uuid: u128,
    pub tick_count: u64,
    pub teleport_id: i32,
    pub keepalive_id: i32,
    /// Chunks sent to the client, each once.
    pub loaded_chunks: Vec<(i32, i32)>,
    pub last_chunk: (i32, i32),
    pub pending_block_updates: Vec<(i64, i32)>,
    pub pending_spawns: Vec<(PlayPacket, BytesMut)>,
    pub next_entity_id: i32,
    /// Tracked item entities on the ground.
    pub item_entities: Vec<ItemEntity>,
    /// Player inventory: slots 0-8 hotbar, 9-35 main, 36-39 armor, 40 offhand.
    pub inventory: Vec<Option<ItemStack>>,
    /// Container state ID for inventory sync.
    pub container_state_id: i32,
    /// Currently selected hotbar slot (0-8).
    pub held_slot: u16,
}

/// Every stack holds between 1 and 64 items.
pub open spec fn stacks_valid(inv: Seq<Option<ItemStack>>) -> bool {
    forall|i: int| 0 <= i < inv.len() ==> match #[trigger] inv[i] {
        Some(st) => 1 <= st.count <= MAX_STACK,
        None => true,
    }
}

/// `new` is `old` after the block at packed position `pos` was broken: a
/// BlockUpdate to air is queued, the next entity ID is taken for an item
/// entity of the block's drop at (`x_bits`, `y_bits`, `z_bits`) with UUID
/// `uuid`, its AddEntity and SetEntityData packets are queued in that order,
/// and the entity is tracked. Nothing else changes.
pub open spec fn broke_block(old: ServerState, new: ServerState, pos: i64, uuid: u128, x_bits: u64, y_bits: u64, z_bits: u64) -> bool {
    let item = crate::level_chunk::spec_drop_item_id(crate::play::spec_block_pos(pos).1);
    let eid = old.next_entity_id;
    &&& new.next_entity_id == old.next_entity_id + 1
    &&& new.pending_block_updates@ == old.pending_block_updates@.push((pos, 0i32))
    &&& packets_view(new.pending_spawns@) == packets_view(old.pending_spawns@).push(
        (PlayPacket::AddEntity, crate::play::spec_add_entity_body(eid, uuid, 71, x_bits, y_bits, z_bits, 0, 0, 0, 0, false)),
    ).push((PlayPacket::SetEntityData, crate::play::spec_item_data_body(eid, item)))
    &&& new.item_entities@ == old.item_entities@.push(
        ItemEntity { entity_id: eid, item_id: item, count: 1, x: x_bits, y: y_bits, z: z_bits },
    )
    &&& new == (ServerState {
        next_entity_id: new.next_entity_id,
        pending_block_updates: new.pending_block_updates,
        pending_spawns: new.pending_spawns,
        item_entities: new.item_entities,
        ..old
    })
}

impl ServerState {
    /// The loaded chunks hold no repeats, and the inventory has its 46 slots
    /// of valid stacks.
    pub open spec fn well_formed(&self) -> bool {
        &&& self.loaded_chunks@.no_duplicates()
        &&& self.inventory@.len() == INVENTORY_SIZE
        &&& stacks_valid(self.inventory@)
    }

    /// A fresh state for the player `uuid`, standing in chunk (0, 0) (the
    /// default spawn position x = 0, z = 0).
    pub fn new(uuid: u128) -> (r: Self)
        ensures
            r.well_formed(),
            r.player_entity_id == 1352,
            r.player_uuid == uuid,
            r.tick_count == 0,
            r.teleport_id == 0,
            r.keepalive_id == 0,
            r.loaded_chunks@.len() == 0,
            r.last_chunk == (0i32, 0i32),
            r.pending_block_updates@.len() == 0,
            r.pending_spawns@.len() == 0,
            r.next_entity_id == 1000,
            r.item_entities@.len() == 0,
            r.inventory@ == Seq::new(INVENTORY_SIZE as nat, |i: int| None::<ItemStack>),
            r.container_state_id == 0,
            r.held_slot == 0,
    {
        let mut inventory: Vec<Option<ItemStack>> = Vec::new();
        let mut i: usize = 0;
        while i < INVENTORY_SIZE
            invariant
                i <= INVENTORY_SIZE,
                inventory@ == Seq::new(i as nat, |k: int| None::<ItemStack>),
            decreases INVENTORY_SIZE - i,
        {
            inventory.push(None);
            proof {
                assert(inventory@ =~= Seq::new((i + 1) as nat, |k: int| None::<ItemStack>));
            }
            i = i + 1;
        }
        Self {
            player_entity_id: 1352,
            player_uuid: uuid,
            tick_count: 0,
            teleport_id: 0,
            keepalive_id: 0,
            loaded_chunks: Vec::new(),
            last_chunk: (0, 0),
            pending_block_updates: Vec::new(),
            pending_spawns: Vec::new(),
            next_entity_id: 1000,
            item_entities: Vec::new(),
            inventory,
            container_state_id: 0,
            held_slot: 0,
        }
    }

    pub fn next_teleport_id(&mut self) -> (r: i32)
        requires
            old(self).teleport_id < i32::MAX,
        ensures
            r == old(self).teleport_id + 1,
            *final(self) == (ServerState { teleport_id: r, ..*old(self) }),
    {
        self.teleport_id += 1;
        self.teleport_id
    }

    pub fn next_keepalive_id(&mut self) -> (r: i32)
        ensures
            r == (if old(self).keepalive_id == i32::MAX { i32::MIN } else { (old(self).keepalive_id + 1) as i32 }),
            *final(self) == (ServerState { keepalive_id: r, ..*old(self) }),
    {
        self.keepalive_id = self.keepalive_id.wrapping_add(1);
        self.keepalive_id
    }

    pub fn advance_tick(&mut self)
        requires
            old(self).tick_count < u64::MAX,
        ensures
            *final(self) == (ServerState { tick_count: (old(self).tick_count + 1) as u64, ..*old(self) }),
    {
        self.tick_count += 1;
    }

    /// Returns true if the player, now in chunk `player_chunk`, moved to a different chunk.
    pub fn chunk_changed(&self, player_chunk: (i32, i32)) -> (r: bool)
        ensures
            r == (player_chunk != self.last_chunk),
    {
        player_chunk.0 != self.last_chunk.0 || player_chunk.1 != self.last_chunk.1
    }

    /// Compute the chunk positions within view radius of the player's chunk,
    /// X offset outer, Z offset inner, each from -4 to 4.
    pub fn visible_chunks(&self, player_chunk: (i32, i32)) -> (r: Vec<(i32, i32)>)
        requires
            view_fits(player_chunk),
        ensures
            r@ == spec_visible(player_chunk),
    {
        visible_around(player_chunk)
    }

    /// Return chunks that are now visible but haven't been loaded yet.
    pub fn new_visible_chunks(&self, player_chunk: (i32, i32)) -> (r: Vec<(i32, i32)>)
        requires
            view_fits(player_chunk),
        ensures
            r@ == not_in(spec_visible(player_chunk), self.loaded_chunks@),
    {
        let vis = visible_around(player_chunk);
        let mut out: Vec<(i32, i32)> = Vec::new();
        let mut i: usize = 0;
        while i < vis.len()
            invariant
                i <= vis@.len(),
                out@ == not_in(vis@.take(i as int), self.loaded_chunks@),
            decreases vis@.len() - i,
        {
            proof {
                assert(vis@.take(i + 1).drop_last() =~= vis@.take(i as int));
            }
            if !contains_chunk(&self.loaded_chunks, vis[i]) {
                out.push(vis[i]);
            }
            i = i + 1;
        }
        proof {
            assert(vis@.take(vis@.len() as int) =~= vis@);
        }
        out
    }

    /// Mark chunks as having been sent to the client; the player now stands
    /// in `player_chunk`.
    pub fn mark_chunks_loaded(&mut self, chunks: &[(i32, i32)], player_chunk: (i32, i32))
        requires
            old(self).well_formed(),
        ensures
            final(self).well_formed(),
            final(self).loaded_chunks@.to_set() == old(self).loaded_chunks@.to_set() + chunks@.to_set(),
            *final(self) == (ServerState {
                loaded_chunks: final(self).loaded_chunks,
                last_chunk: player_chunk,
                ..*old(self)
            }),
    {
        let ghost start = self.loaded_chunks@;
        let mut i: usize = 0;
        while i < chunks.len()
            invariant
                i <= chunks@.len(),
                self.well_formed(),
                self.loaded_chunks@.to_set() == start.to_set() + chunks@.take(i as int).to_set(),
                *self == (ServerState { loaded_chunks: self.loaded_chunks, ..*old(self) }),
            decreases chunks@.len() - i,
        {
            let c = chunks[i];
            let ghost before_all = self.loaded_chunks@;
            if !contains_chunk(&self.loaded_chunks, c) {
                let ghost before = self.loaded_chunks@;
                self.loaded_chunks.push(c);
                proof {
                    assert(self.loaded_chunks@ == before.push(c));
                    assert forall|a: int, b: int|
                        0 <= a < b < self.loaded_chunks@.len() implies self.loaded_chunks@[a]
                        != self.loaded_chunks@[b] by {
                        if b == before.len() {
                            assert(before.contains(before[a]));
                        }
                    }
                }
            }
            proof {
                assert(chunks@.take(i + 1) =~= chunks@.take(i as int).push(c));
                chunks@.take(i as int).lemma_push_to_set_commute(c);
                before_all.lemma_push_to_set_commute(c);
                if self.loaded_chunks@ != before_all.push(c) {
                    assert(before_all.contains(c));
                    assert(before_all.to_set().contains(c));
                    assert(self.loaded_chunks@.to_set() =~= before_all.to_set().insert(c));
                }
                assert(self.loaded_chunks@.to_set() =~= start.to_set() + chunks@.take(i + 1).to_set());
            }
            i = i + 1;
        }
        proof {
            assert(chunks@.take(chunks@.len() as int) =~= chunks@);
        }
        self.last_chunk = player_chunk;
    }

    /// Add `count` items of `item_id` to the pickup slots, topping up stacks
    /// of that item first and then filling empty slots, 64 to a slot, each
    /// in slot order. Returns how many did not fit.
    pub fn add_to_inventory(&mut self, item_id: i32, count: i32) -> (r: i32)
        requires
            old(self).well_formed(),
        ensures
            final(self).well_formed(),
            (final(self).inventory@, r as int) == fill(old(self).inventory@, item_id, count as int),
            *final(self) == (ServerState { inventory: final(self).inventory, ..*old(self) }),
    {
        let mut remaining = count;
        let mut slot: usize = 0;
        while slot < PICKUP_SLOTS
            invariant
                slot <= PICKUP_SLOTS,
                self.well_formed(),
                remaining <= count,
                fill_stacks(old(self).inventory@, item_id, count as int, 0) == fill_stacks(
                    self.inventory@,
                    item_id,
                    remaining as int,
                    slot as nat,
                ),
                *self == (ServerState { inventory: self.inventory, ..*old(self) }),
            ensures
                self.well_formed(),
                remaining <= count,
                fill_stacks(old(self).inventory@, item_id, count as int, 0) == (self.inventory@, remaining as int),
                *self == (ServerState { inventory: self.inventory, ..*old(self) }),
            decreases PICKUP_SLOTS - slot,
        {
            if remaining <= 0 {
                break;
            }
            match self.inventory[slot] {
                Some(stack) => {
                    if stack.item_id == item_id && stack.count < MAX_STACK {
                        let room = MAX_STACK - stack.count;
                        let add = if room < remaining { room } else { remaining };
                        let ghost before = self.inventory@;
                        self.inventory.set(slot, Some(ItemStack { item_id, count: stack.count + add }));
                        proof {
                            assert(self.inventory@ == before.update(slot as int, Some(ItemStack { item_id, count: (stack.count + add) as i32 })));
                        }
                        remaining -= add;
                    }
                },
                None => {},
            }
            slot += 1;
        }
        let ghost mid = self.inventory@;
        let ghost mid_rem = remaining;
        let mut slot: usize = 0;
        while slot < PICKUP_SLOTS
            invariant
                slot <= PICKUP_SLOTS,
                self.well_formed(),
                remaining <= count,
                fill_empty(mid, item_id, mid_rem as int, 0) == fill_empty(
                    self.inventory@,
                    item_id,
                    remaining as int,
                    slot as nat,
                ),
                *self == (ServerState { inventory: self.inventory, ..*old(self) }),
            ensures
                self.well_formed(),
                fill_empty(mid, item_id, mid_rem as int, 0) == (self.inventory@, remaining as int),
                *self == (ServerState { inventory: self.inventory, ..*old(self) }),
            decreases PICKUP_SLOTS - slot,
        {
            if remaining <= 0 {
                break;
            }
            match self.inventory[slot] {
                Some(_) => {},
                None => {
                    let add = if remaining < MAX_STACK { remaining } else { MAX_STACK };
                    self.inventory.set(slot, Some(ItemStack { item_id, count: add }));
                    remaining -= add;
                },
            }
            slot += 1;
        }
        remaining
    }

    /// The pickup slots that hold a stack, in order.
    pub fn synced_slots(&self) -> (r: Vec<usize>)
        requires
            self.well_formed(),
        ensures
            r@ == filled_slots(self.inventory@, PICKUP_SLOTS as nat),
    {
        let mut out: Vec<usize> = Vec::new();
        let mut slot: usize = 0;
        while slot < PICKUP_SLOTS
            invariant
                slot <= PICKUP_SLOTS,
                self.well_formed(),
                out@ == filled_slots(self.inventory@, slot as nat),
            decreases PICKUP_SLOTS - slot,
        {
            if self.inventory[slot].is_some() {
                out.push(slot);
            }
            slot += 1;
        }
        out
    }

    /// Picks up the item entities at positions `picked` (strictly increasing,
    /// those the player stands near), last first: each adds to the inventory
    /// and, if any of it fit, gives a TakeItemEntity packet. Then, if anything
    /// was picked, the container state ID advances and every filled pickup slot
    /// gets a ContainerSetSlot packet, provided any is filled. The picked
    /// entities are removed whether or not they fit.
    pub fn process_pickups(&mut self, picked: &[usize]) -> (r: Vec<(PlayPacket, BytesMut)>)
        requires
            old(self).well_formed(),
            increasing_below(picked@, old(self).item_entities@.len()),
            picked@.len() > 0 ==> old(self).container_state_id < i32::MAX,
        ensures
            final(self).well_formed(),
            ({
                let (inv, takes) = pickup_from(old(self).inventory@, old(self).item_entities@, picked@, picked@.len());
                let sid = if picked@.len() > 0 && filled_slots(inv, PICKUP_SLOTS as nat).len() > 0 {
                    old(self).container_state_id + 1
                } else {
                    old(self).container_state_id as int
                };
                &&& final(self).inventory@ == inv
                &&& final(self).container_state_id == sid
                &&& final(self).item_entities@ == without(old(self).item_entities@, picked@, picked@.len())
                &&& packets_view(r@) == take_packets(takes, old(self).player_entity_id) + (if picked@.len() > 0 {
                    slot_packets(inv, sid as i32, filled_slots(inv, PICKUP_SLOTS as nat))
                } else {
                    Seq::empty()
                })
                &&& *final(self) == (ServerState {
                    inventory: final(self).inventory,
                    container_state_id: final(self).container_state_id,
                    item_entities: final(self).item_entities,
                    ..*old(self)
                })
            }),
    {
        let ghost ents = self.item_entities@;
        let ghost inv0 = self.inventory@;
        let mut out: Vec<(PlayPacket, BytesMut)> = Vec::new();
        let n = picked.len();
        let mut k: usize = 0;
        while k < n
            invariant
                k <= n == picked@.len(),
                self.well_formed(),
                increasing_below(picked@, ents.len()),
                self.item_entities@ == ents,
                ({
                    let (inv, takes) = pickup_from(inv0, ents, picked@, k as nat);
                    self.inventory@ == inv && packets_view(out@) == take_packets(takes, self.player_entity_id)
                }),
                *self == (ServerState { inventory: self.inventory, ..*old(self) }),
            decreases n - k,
        {
            let idx = picked[n - 1 - k];
            let entity = self.item_entities[idx];
            let ghost inv_k = self.inventory@;
            proof {
                lemma_fill_bounds(inv_k, entity.item_id, entity.count as int);
            }
            let remaining = self.add_to_inventory(entity.item_id, entity.count);
            if remaining != entity.count {
                let body = take_item_body(entity.entity_id, self.player_entity_id, entity.count - remaining);
                let ghost before = out@;
                out.push((PlayPacket::TakeItemEntity, body));
                proof {
                    assert(packets_view(out@) =~= packets_view(before).push((PlayPacket::TakeItemEntity, bytes_mut_view(body))));
                }
            }
            proof {
                let (inv_kk, takes_k) = pickup_from(inv0, ents, picked@, k as nat);
                assert(take_packets(takes_k.push((entity.entity_id, (entity.count - remaining) as i32)), self.player_entity_id)
                    =~= take_packets(takes_k, self.player_entity_id).push((PlayPacket::TakeItemEntity, take_body_spec(entity.entity_id, self.player_entity_id, (entity.count - remaining) as i32))));
            }
            k += 1;
        }
        if n > 0 {
            let slots = self.synced_slots();
            if slots.len() > 0 {
                self.container_state_id += 1;
                let ghost head = packets_view(out@);
                let mut j: usize = 0;
                while j < slots.len()
                    invariant
                        j <= slots@.len(),
                        self.well_formed(),
                        slots@ == filled_slots(self.inventory@, PICKUP_SLOTS as nat),
                        packets_view(out@) == head + slot_packets(self.inventory@, self.container_state_id, slots@.take(j as int)),
                    decreases slots@.len() - j,
                {
                    let internal = slots[j];
                    proof {
                        lemma_filled_slots_bound(self.inventory@, PICKUP_SLOTS as nat, j as int);
                    }
                    let body = container_slot_body(self.container_state_id, window_slot_of(internal), self.inventory[internal]);
                    let ghost before = out@;
                    out.push((PlayPacket::ContainerSetSlot, body));
                    proof {
                        assert(slots@.take(j + 1).drop_last() =~= slots@.take(j as int));
                        assert(packets_view(out@) =~= packets_view(before).push((PlayPacket::ContainerSetSlot, bytes_mut_view(body))));
                    }
                    j += 1;
                }
                proof {
                    assert(slots@.take(slots@.len() as int) =~= slots@);
                }
            } else {
                proof {
                    assert(packets_view(out@) + Seq::<(PlayPacket, Seq<u8>)>::empty() =~= packets_view(out@));
                }
            }
        } else {
            proof {
                assert(packets_view(out@) + Seq::<(PlayPacket, Seq<u8>)>::empty() =~= packets_view(out@));
            }
        }
        let ghost mid = *self;
        let mut k: usize = 0;
        while k < n
            invariant
                k <= n == picked@.len(),
                increasing_below(picked@, ents.len()),
                self.item_entities@ == without(ents, picked@, k as nat),
                self.well_formed(),
                *self == (ServerState { item_entities: self.item_entities, ..mid }),
            decreases n - k,
        {
            proof {
                lemma_without_len(ents, picked@, k as nat);
            }
            let idx = picked[n - 1 - k];
            self.item_entities.remove(idx);
            k += 1;
        }
        out
    }

    /// Record that the block at packed position `pos` was broken: queue a
    /// BlockUpdate to air, then spawn an item entity of the block's drop
    /// (queued as AddEntity and SetEntityData packets, then tracked). The
    /// entity's position is (`x_bits`, `y_bits`, `z_bits`) and its UUID `uuid`.
    /// Returns the new entity's ID.
    pub fn break_block(&mut self, pos: i64, uuid: u128, x_bits: u64, y_bits: u64, z_bits: u64) -> (r: i32)
        requires
            old(self).next_entity_id < i32::MAX,
        ensures
            r == old(self).next_entity_id,
            broke_block(*old(self), *final(self), pos, uuid, x_bits, y_bits, z_bits),
    {
        let (_x, y, _z) = crate::play::decode_block_pos(pos);
        self.pending_block_updates.push((pos, 0));
        let eid = self.next_entity_id;
        self.next_entity_id += 1;
        let add_body = crate::play::write_add_entity(eid, uuid, 71, x_bits, y_bits, z_bits, 0, 0, 0, 0, false);
        let ghost p0 = self.pending_spawns@;
        self.pending_spawns.push((PlayPacket::AddEntity, add_body));
        let item_id = crate::level_chunk::get_drop_item_id(y);
        let meta = crate::play::item_data_body(eid, item_id);
        let ghost p1 = self.pending_spawns@;
        self.pending_spawns.push((PlayPacket::SetEntityData, meta));
        proof {
            assert(packets_view(p1) =~= packets_view(p0).push((PlayPacket::AddEntity, bytes_mut_view(add_body))));
            assert(packets_view(self.pending_spawns@) =~= packets_view(p1).push((PlayPacket::SetEntityData, bytes_mut_view(meta))));
        }
        self.item_entities.push(ItemEntity { entity_id: eid, item_id, count: 1, x: x_bits, y: y_bits, z: z_bits });
        eid
    }

    /// Placing a block uses up one item of the held stack; an emptied stack
    /// leaves the slot empty.
    pub fn use_held_item(&mut self)
        requires
            old(self).well_formed(),
            (old(self).held_slot as int) < INVENTORY_SIZE,
        ensures
            final(self).well_formed(),
            final(self).inventory@ == old(self).inventory@.update(
                old(self).held_slot as int,
                match old(self).inventory@[old(self).held_slot as int] {
                    Some(st) => if st.count > 1 {
                        Some(ItemStack { item_id: st.item_id, count: (st.count - 1) as i32 })
                    } else {
                        None
                    },
                    None => None,
                },
            ),
            *final(self) == (ServerState { inventory: final(self).inventory, ..*old(self) }),
    {
        let slot = self.held_slot as usize;
        match self.inventory[slot] {
            Some(stack) => {
                let count = stack.count - 1;
                if count <= 0 {
                    self.inventory.set(slot, None);
                } else {
                    self.inventory.set(slot, Some(ItemStack { item_id: stack.item_id, count }));
                }
            },
            None => {
                proof {
                    assert(self.inventory@ =~= old(self).inventory@.update(slot as int, None));
                }
            },
        }
    }
}

/// The server: the port it listens on.
pub struct RustServer {
    pub port: u16,
}

impl RustServer {
    pub fn new(port: u16) -> (r: Self)
        ensures
            r.port == port,
    {
        Self { port }
    }
}

// ── Chunks in view ───────────────────────────────────────────

/// The view square around `pc` stays within `i32`.
pub open spec fn view_fits(pc: (i32, i32)) -> bool {
    i32::MIN + VIEW_RADIUS <= pc.0 <= i32::MAX - VIEW_RADIUS && i32::MIN + VIEW_RADIUS <= pc.1 <= i32::MAX
        - VIEW_RADIUS
}

/// The 81 chunks around `pc`: X offset outer, Z offset inner, -4 to 4.
pub open spec fn spec_visible(pc: (i32, i32)) -> Seq<(i32, i32)> {
    Seq::new(81, |k: int| ((pc.0 + k / 9 - VIEW_RADIUS) as i32, (pc.1 + k % 9 - VIEW_RADIUS) as i32))
}

/// The chunks of `cs` that `loaded` does not hold, in order.
pub open spec fn not_in(cs: Seq<(i32, i32)>, loaded: Seq<(i32, i32)>) -> Seq<(i32, i32)>
    decreases cs.len(),
{
    if cs.len() == 0 {
        Seq::empty()
    } else {
        let r = not_in(cs.drop_last(), loaded);
        if loaded.contains(cs.last()) {
            r
        } else {
            r.push(cs.last())
        }
    }
}

fn visible_around(pc: (i32, i32)) -> (r: Vec<(i32, i32)>)
    requires
        view_fits(pc),
    ensures
        r@ == spec_visible(pc),
{
    let mut chunks: Vec<(i32, i32)> = Vec::new();
    let mut dx: i32 = -VIEW_RADIUS;
    while dx <= VIEW_RADIUS
        invariant
            -VIEW_RADIUS <= dx <= VIEW_RADIUS + 1,
            view_fits(pc),
            chunks@ == spec_visible(pc).take((dx + VIEW_RADIUS) * 9),
        decreases VIEW_RADIUS + 1 - dx,
    {
        let mut dz: i32 = -VIEW_RADIUS;
        while dz <= VIEW_RADIUS
            invariant
                -VIEW_RADIUS <= dx <= VIEW_RADIUS,
                -VIEW_RADIUS <= dz <= VIEW_RADIUS + 1,
                view_fits(pc),
                chunks@ == spec_visible(pc).take((dx + VIEW_RADIUS) * 9 + dz + VIEW_RADIUS),
            decreases VIEW_RADIUS + 1 - dz,
        {
            let ghost k = (dx + VIEW_RADIUS) * 9 + dz + VIEW_RADIUS;
            chunks.push((pc.0 + dx, pc.1 + dz));
            proof {
                assert(k / 9 == dx + VIEW_RADIUS && k % 9 == dz + VIEW_RADIUS) by (nonlinear_arith)
                    requires
                        k == (dx + 4) * 9 + dz + 4,
                        -4 <= dx <= 4,
                        -4 <= dz <= 4,
                ;
                assert(chunks@ =~= spec_visible(pc).take(k + 1));
            }
            dz += 1;
        }
        dx += 1;
    }
    proof {
        assert(spec_visible(pc).take(81) =~= spec_visible(pc));
    }
    chunks
}

/// Whether `c` is among the loaded chunks.
fn contains_chunk(v: &Vec<(i32, i32)>, c: (i32, i32)) -> (r: bool)
    ensures
        r == v@.contains(c),
{
    let mut i: usize = 0;
    while i < v.len()
        invariant
            i <= v@.len(),
            forall|j: int| 0 <= j < i ==> v@[j] != c,
        decreases v@.len() - i,
    {
        if v[i].0 == c.0 && v[i].1 == c.1 {
            return true;
        }
        i = i + 1;
    }
    false
}

/// The chunks of `not_in(cs, loaded)` are exactly the chunks of `cs` outside `loaded`.
pub proof fn lemma_not_in_contains(cs: Seq<(i32, i32)>, loaded: Seq<(i32, i32)>, c: (i32, i32))
    ensures
        not_in(cs, loaded).contains(c) <==> (cs.contains(c) && !loaded.contains(c)),
    decreases cs.len(),
{
    if cs.len() > 0 {
        lemma_not_in_contains(cs.drop_last(), loaded, c);
        assert(cs =~= cs.drop_last().push(cs.last()));
        if cs.drop_last().contains(c) {
            let i = choose|i: int| 0 <= i < cs.drop_last().len() && cs.drop_last()[i] == c;
            assert(cs[i] == c);
        }
        if cs.contains(c) && cs.last() != c {
            let i = choose|i: int| 0 <= i < cs.len() && cs[i] == c;
            assert(cs.drop_last()[i] == c);
        }
        let r = not_in(cs.drop_last(), loaded);
        if !loaded.contains(cs.last()) {
            if r.push(cs.last()).contains(c) && cs.last() != c {
                let i = choose|i: int| 0 <= i < r.push(cs.last()).len() && r.push(cs.last())[i] == c;
                assert(r[i] == c);
            }
            if r.contains(c) {
                let i = choose|i: int| 0 <= i < r.len() && r[i] == c;
                assert(r.push(cs.last())[i] == c);
            }
            assert(r.push(cs.last())[r.len() as int] == cs.last());
        }
    }
}

/// Once the newly visible chunks are marked loaded, none of the chunks in
/// view is new any more.
pub proof fn law_loaded_chunks_not_new(loaded: Seq<(i32, i32)>, marked: Seq<(i32, i32)>, pc: (i32, i32))
    requires
        marked.to_set() == loaded.to_set() + not_in(spec_visible(pc), loaded).to_set(),
    ensures
        not_in(spec_visible(pc), marked).len() == 0,
{
    let vis = spec_visible(pc);
    let r = not_in(vis, marked);
    if r.len() > 0 {
        let c = r[0];
        assert(r.contains(c));
        lemma_not_in_contains(vis, marked, c);
        lemma_not_in_contains(vis, loaded, c);
        if loaded.contains(c) {
            assert(loaded.to_set().contains(c));
            assert(marked.to_set().contains(c));
        } else {
            assert(not_in(vis, loaded).contains(c));
            assert(not_in(vis, loaded).to_set().contains(c));
            assert(marked.to_set().contains(c));
        }
        assert(marked.contains(c));
    }
}

// ── Inventory ────────────────────────────────────────────────

/// Topping up, from pickup slot `slot` on, the stacks of `item` that have
/// room with `remaining` items: the new inventory and how many are left.
pub open spec fn fill_stacks(inv: Seq<Option<ItemStack>>, item: i32, remaining: int, slot: nat) -> (Seq<Option<ItemStack>>, int)
    decreases PICKUP_SLOTS - slot,
{
    if slot >= PICKUP_SLOTS || remaining <= 0 {
        (inv, remaining)
    } else {
        match inv[slot as int] {
            Some(st) => if st.item_id == item && st.count < MAX_STACK {
                let add = if MAX_STACK - st.count < remaining { MAX_STACK - st.count } else { remaining };
                fill_stacks(inv.update(slot as int, Some(ItemStack { item_id: item, count: (st.count + add) as i32 })), item, remaining - add, slot + 1)
            } else {
                fill_stacks(inv, item, remaining, slot + 1)
            },
            None => fill_stacks(inv, item, remaining, slot + 1),
        }
    }
}

/// Putting `remaining` items of `item` into the empty pickup slots from
/// `slot` on, 64 to a slot: the new inventory and how many are left.
pub open spec fn fill_empty(inv: Seq<Option<ItemStack>>, item: i32, remaining: int, slot: nat) -> (Seq<Option<ItemStack>>, int)
    decreases PICKUP_SLOTS - slot,
{
    if slot >= PICKUP_SLOTS || remaining <= 0 {
        (inv, remaining)
    } else {
        match inv[slot as int] {
            Some(_) => fill_empty(inv, item, remaining, slot + 1),
            None => {
                let add = if remaining < MAX_STACK { remaining } else { MAX_STACK as int };
                fill_empty(inv.update(slot as int, Some(ItemStack { item_id: item, count: add as i32 })), item, remaining - add, slot + 1)
            },
        }
    }
}

/// Adding `remaining` items of `item` to the pickup slots: first the stacks
/// of that item that have room, in slot order, then the empty slots, in slot
/// order. The new inventory and how many did not fit.
pub open spec fn fill(inv: Seq<Option<ItemStack>>, item: i32, remaining: int) -> (Seq<Option<ItemStack>>, int) {
    let (inv1, r1) = fill_stacks(inv, item, remaining, 0);
    fill_empty(inv1, item, r1, 0)
}

/// How many items of `item` the first `n` slots hold.
pub open spec fn held(inv: Seq<Option<ItemStack>>, item: i32, n: nat) -> int
    decreases n,
{
    if n == 0 {
        0
    } else {
        held(inv, item, (n - 1) as nat) + match inv[n - 1] {
            Some(st) => if st.item_id == item { st.count as int } else { 0 },
            None => 0,
        }
    }
}

/// The slots below `n` that hold a stack.
pub open spec fn filled_slots(inv: Seq<Option<ItemStack>>, n: nat) -> Seq<usize>
    decreases n,
{
    if n == 0 {
        Seq::empty()
    } else {
        let r = filled_slots(inv, (n - 1) as nat);
        if inv[n - 1] is Some {
            r.push((n - 1) as usize)
        } else {
            r
        }
    }
}

pub proof fn lemma_filled_slots_bound(inv: Seq<Option<ItemStack>>, n: nat, j: int)
    requires
        0 <= j < filled_slots(inv, n).len(),
        n <= PICKUP_SLOTS,
    ensures
        filled_slots(inv, n)[j] < n,
        inv[filled_slots(inv, n)[j] as int] is Some,
    decreases n,
{
    if n > 0 {
        let r = filled_slots(inv, (n - 1) as nat);
        if j < r.len() {
            lemma_filled_slots_bound(inv, (n - 1) as nat, j);
        }
    }
}

proof fn lemma_held_update_other(inv: Seq<Option<ItemStack>>, item: i32, n: nat, slot: int, v: Option<ItemStack>)
    requires
        n <= slot < inv.len(),
    ensures
        held(inv.update(slot, v), item, n) == held(inv, item, n),
    decreases n,
{
    if n > 0 {
        lemma_held_update_other(inv, item, (n - 1) as nat, slot, v);
    }
}

proof fn lemma_held_update(inv: Seq<Option<ItemStack>>, item: i32, n: nat, slot: int, v: Option<ItemStack>)
    requires
        0 <= slot < n <= inv.len(),
    ensures
        held(inv.update(slot, v), item, n) == held(inv, item, n) - (match inv[slot] {
            Some(st) => if st.item_id == item { st.count as int } else { 0 },
            None => 0,
        }) + (match v {
            Some(st) => if st.item_id == item { st.count as int } else { 0 },
            None => 0,
        }),
    decreases n,
{
    if n - 1 == slot {
        lemma_held_update_other(inv, item, (n - 1) as nat, slot, v);
    } else {
        lemma_held_update(inv, item, (n - 1) as nat, slot, v);
    }
}

proof fn lemma_fill_stacks(inv: Seq<Option<ItemStack>>, item: i32, remaining: int, slot: nat, other: i32)
    requires
        inv.len() == INVENTORY_SIZE,
        stacks_valid(inv),
        remaining >= 0,
        slot <= PICKUP_SLOTS,
        other != item,
    ensures
        ({
            let (inv2, rem) = fill_stacks(inv, item, remaining, slot);
            &&& inv2.len() == INVENTORY_SIZE
            &&& stacks_valid(inv2)
            &&& 0 <= rem <= remaining
            &&& held(inv2, item, PICKUP_SLOTS as nat) == held(inv, item, PICKUP_SLOTS as nat) + remaining - rem
            &&& held(inv2, other, PICKUP_SLOTS as nat) == held(inv, other, PICKUP_SLOTS as nat)
            &&& forall|i: int| 0 <= i < slot ==> inv2[i] == inv[i]
            &&& forall|i: int| PICKUP_SLOTS <= i < INVENTORY_SIZE ==> inv2[i] == inv[i]
            &&& forall|i: int| 0 <= i < INVENTORY_SIZE && inv[i] is None ==> #[trigger] inv2[i] is None
            &&& forall|i: int| 0 <= i < INVENTORY_SIZE && inv[i] is Some ==> #[trigger] inv2[i] is Some
            &&& rem > 0 ==> forall|i: int| slot <= i < PICKUP_SLOTS ==> (#[trigger] inv2[i] matches Some(st) ==> (st.item_id != item || st.count == MAX_STACK))
        }),
    decreases PICKUP_SLOTS - slot,
{
    if slot < PICKUP_SLOTS && remaining > 0 {
        match inv[slot as int] {
            Some(st) => if st.item_id == item && st.count < MAX_STACK {
                let add = if MAX_STACK - st.count < remaining { MAX_STACK - st.count } else { remaining };
                let v = Some(ItemStack { item_id: item, count: (st.count + add) as i32 });
                let inv1 = inv.update(slot as int, v);
                lemma_held_update(inv, item, PICKUP_SLOTS as nat, slot as int, v);
                lemma_held_update(inv, other, PICKUP_SLOTS as nat, slot as int, v);
                lemma_fill_stacks(inv1, item, remaining - add, slot + 1, other);
            } else {
                lemma_fill_stacks(inv, item, remaining, slot + 1, other);
            },
            None => {
                lemma_fill_stacks(inv, item, remaining, slot + 1, other);
            },
        }
    }
}

proof fn lemma_fill_empty(inv: Seq<Option<ItemStack>>, item: i32, remaining: int, slot: nat, other: i32)
    requires
        inv.len() == INVENTORY_SIZE,
        stacks_valid(inv),
        remaining >= 0,
        slot <= PICKUP_SLOTS,
        other != item,
    ensures
        ({
            let (inv2, rem) = fill_empty(inv, item, remaining, slot);
            &&& inv2.len() == INVENTORY_SIZE
            &&& stacks_valid(inv2)
            &&& 0 <= rem <= remaining
            &&& held(inv2, item, PICKUP_SLOTS as nat) == held(inv, item, PICKUP_SLOTS as nat) + remaining - rem
            &&& held(inv2, other, PICKUP_SLOTS as nat) == held(inv, other, PICKUP_SLOTS as nat)
            &&& forall|i: int| 0 <= i < slot ==> inv2[i] == inv[i]
            &&& forall|i: int| PICKUP_SLOTS <= i < INVENTORY_SIZE ==> inv2[i] == inv[i]
            &&& forall|i: int| 0 <= i < INVENTORY_SIZE && inv[i] is Some ==> #[trigger] inv2[i] == inv[i]
            &&& rem > 0 ==> forall|i: int| slot <= i < PICKUP_SLOTS && inv[i] is None ==> #[trigger] inv2[i] == Some(ItemStack { item_id: item, count: MAX_STACK })
        }),
    decreases PICKUP_SLOTS - slot,
{
    if slot < PICKUP_SLOTS && remaining > 0 {
        match inv[slot as int] {
            Some(_) => {
                lemma_fill_empty(inv, item, remaining, slot + 1, other);
            },
            None => {
                let add = if remaining < MAX_STACK { remaining } else { MAX_STACK as int };
                let v = Some(ItemStack { item_id: item, count: add as i32 });
                let inv1 = inv.update(slot as int, v);
                lemma_held_update(inv, item, PICKUP_SLOTS as nat, slot as int, v);
                lemma_held_update(inv, other, PICKUP_SLOTS as nat, slot as int, v);
                lemma_fill_empty(inv1, item, remaining - add, slot + 1, other);
            },
        }
    }
}

/// Filling keeps the stacks valid, leaves the slots past the pickup slots
/// alone, and leaves between none and all of the items over.
pub proof fn lemma_fill_bounds(inv: Seq<Option<ItemStack>>, item: i32, remaining: int)
    requires
        inv.len() == INVENTORY_SIZE,
        stacks_valid(inv),
    ensures
        ({
            let (inv2, rem) = fill(inv, item, remaining);
            &&& inv2.len() == INVENTORY_SIZE
            &&& stacks_valid(inv2)
            &&& remaining > 0 ==> 0 <= rem <= remaining
            &&& remaining <= 0 ==> rem == remaining
            &&& forall|i: int| PICKUP_SLOTS <= i < INVENTORY_SIZE ==> inv2[i] == inv[i]
        }),
{
    let other: i32 = if item == 0 { 1 } else { 0 };
    if remaining > 0 {
        lemma_fill_stacks(inv, item, remaining, 0, other);
        let (inv1, r1) = fill_stacks(inv, item, remaining, 0);
        lemma_fill_empty(inv1, item, r1, 0, other);
    }
}

/// Picking up conserves items: what does not fit is left over, what fits is
/// added to the pickup slots' count of that item, the count of every other
/// item is unchanged, stacks of the item with room are topped up before any
/// empty slot is used, and something is left over only when no pickup slot
/// has room for the item (each is full of it or holds another item).
pub proof fn law_pickup_conserves(inv: Seq<Option<ItemStack>>, item: i32, count: int, other: i32)
    requires
        inv.len() == INVENTORY_SIZE,
        stacks_valid(inv),
        count >= 0,
        other != item,
    ensures
        ({
            let (inv2, rem) = fill(inv, item, count);
            &&& 0 <= rem <= count
            &&& held(inv2, item, PICKUP_SLOTS as nat) == held(inv, item, PICKUP_SLOTS as nat) + count - rem
            &&& held(inv2, other, PICKUP_SLOTS as nat) == held(inv, other, PICKUP_SLOTS as nat)
            &&& (exists|j: int| 0 <= j < PICKUP_SLOTS && inv[j] is None && #[trigger] inv2[j] is Some) ==> forall|i: int|
                0 <= i < PICKUP_SLOTS && inv[i] is Some ==> (#[trigger] inv2[i] matches Some(st) && (st.item_id != item || st.count == MAX_STACK))
            &&& rem > 0 ==> forall|i: int| 0 <= i < PICKUP_SLOTS ==> (#[trigger] inv2[i] matches Some(st) && (st.item_id != item || st.count == MAX_STACK))
        }),
{
    lemma_fill_stacks(inv, item, count, 0, other);
    let (inv1, r1) = fill_stacks(inv, item, count, 0);
    lemma_fill_empty(inv1, item, r1, 0, other);
    let (inv2, rem) = fill_empty(inv1, item, r1, 0);
    if exists|j: int| 0 <= j < PICKUP_SLOTS && inv[j] is None && #[trigger] inv2[j] is Some {
        let j = choose|j: int| 0 <= j < PICKUP_SLOTS && inv[j] is None && #[trigger] inv2[j] is Some;
        assert(inv1[j] is None);
        if r1 <= 0 {
            assert(inv2 == inv1);
        }
        assert(r1 > 0);
    }
}

// ── Pickups ──────────────────────────────────────────────────

/// Strictly increasing positions below `len`.
pub open spec fn increasing_below(p: Seq<usize>, len: nat) -> bool {
    &&& forall|i: int| 0 <= i < p.len() ==> #[trigger] p[i] < len
    &&& forall|i: int, j: int| 0 <= i < j < p.len() ==> p[i] < p[j]
}

/// Picking up the entities at the last `n` positions of `picked`, last first:
/// the inventory after, and the (entity, amount) of each take.
pub open spec fn pickup_from(inv: Seq<Option<ItemStack>>, ents: Seq<ItemEntity>, picked: Seq<usize>, n: nat) -> (Seq<Option<ItemStack>>, Seq<(i32, i32)>)
    decreases n,
{
    if n == 0 || n > picked.len() {
        (inv, Seq::empty())
    } else {
        let (inv1, takes) = pickup_from(inv, ents, picked, (n - 1) as nat);
        let e = ents[picked[picked.len() - n] as int];
        let (inv2, rem) = fill(inv1, e.item_id, e.count as int);
        (inv2, if rem == e.count { takes } else { takes.push((e.entity_id, (e.count - rem) as i32)) })
    }
}

/// The entities left after removing those at the last `n` positions of
/// `picked`, last first.
pub open spec fn without(ents: Seq<ItemEntity>, picked: Seq<usize>, n: nat) -> Seq<ItemEntity>
    decreases n,
{
    if n == 0 || n > picked.len() {
        ents
    } else {
        without(ents, picked, (n - 1) as nat).remove(picked[picked.len() - n] as int)
    }
}

proof fn lemma_without_len(ents: Seq<ItemEntity>, picked: Seq<usize>, n: nat)
    requires
        increasing_below(picked, ents.len()),
        n < picked.len(),
    ensures
        without(ents, picked, n).len() == ents.len() - n,
        picked[picked.len() - 1 - n] < without(ents, picked, n).len(),
    decreases n,
{
    if n > 0 {
        lemma_without_len(ents, picked, (n - 1) as nat);
    }
    let k = picked.len() - 1 - n;
    assert(picked[k] < ents.len());
    if n > 0 {
        // the n positions above k are distinct and larger, so k has n entries left above it
        assert forall|i: int| k < i < picked.len() implies picked[i] >= picked[k] + (i - k) by {
            lemma_increasing_gap(picked, k, i);
        }
        assert(picked[picked.len() - 1] >= picked[k] + n);
        assert(picked[picked.len() - 1] < ents.len());
    }
}

proof fn lemma_increasing_gap(p: Seq<usize>, a: int, b: int)
    requires
        0 <= a <= b < p.len(),
        forall|i: int, j: int| 0 <= i < j < p.len() ==> p[i] < p[j],
    ensures
        p[b] >= p[a] + (b - a),
    decreases b - a,
{
    if a < b {
        lemma_increasing_gap(p, a, b - 1);
    }
}

/// The bytes of queued packets.
pub open spec fn packets_view(v: Seq<(PlayPacket, BytesMut)>) -> Seq<(PlayPacket, Seq<u8>)> {
    v.map_values(|p: (PlayPacket, BytesMut)| (p.0, bytes_mut_view(p.1)))
}

/// TakeItemEntity: the item entity, the collecting entity and the amount, as VarInts.
pub open spec fn take_body_spec(entity: i32, collector: i32, amount: i32) -> Seq<u8> {
    varint_of(entity) + varint_of(collector) + varint_of(amount)
}

pub open spec fn take_packets(takes: Seq<(i32, i32)>, collector: i32) -> Seq<(PlayPacket, Seq<u8>)> {
    takes.map_values(|t: (i32, i32)| (PlayPacket::TakeItemEntity, take_body_spec(t.0, collector, t.1)))
}

/// The window slot of internal slot `s`: hotbar 0–8 shows as 36–44, the rest as itself.
pub open spec fn spec_window_slot(s: int) -> int {
    if s < 9 { s + 36 } else { s }
}

/// ContainerSetSlot for the player window: window 0, the state ID, the slot
/// as i16, then the stack (count, item, no component changes) or an empty
/// slot (count 0).
pub open spec fn slot_body_spec(state_id: i32, window_slot: u16, stack: Option<ItemStack>) -> Seq<u8> {
    seq![0u8] + varint_of(state_id) + be_bytes(unsigned16(window_slot as i16 as int), 2) + match stack {
        Some(st) => varint_of(st.count) + varint_of(st.item_id) + varint_of(0) + varint_of(0),
        None => varint_of(0),
    }
}

pub open spec fn slot_packets(inv: Seq<Option<ItemStack>>, state_id: i32, slots: Seq<usize>) -> Seq<(PlayPacket, Seq<u8>)> {
    slots.map_values(|s: usize| (PlayPacket::ContainerSetSlot, slot_body_spec(state_id, spec_window_slot(s as int) as u16, inv[s as int])))
}

/// The window slot of an internal pickup slot.
pub fn window_slot_of(internal: usize) -> (r: u16)
    requires
        internal < PICKUP_SLOTS,
    ensures
        r == spec_window_slot(internal as int),
{
    if internal < 9 {
        internal as u16 + 36
    } else {
        internal as u16
    }
}

/// The internal slot a window slot shows: 36–44 are the hotbar 0–8.
pub fn internal_slot_of(window_slot: u16) -> (r: usize)
    ensures
        r == (if window_slot >= 36 { window_slot - 36 } else { window_slot as int }),
{
    if window_slot >= 36 {
        (window_slot - 36) as usize
    } else {
        window_slot as usize
    }
}

/// A pickup slot's window slot leads back to it.
pub proof fn law_window_slot_roundtrip(internal: int)
    requires
        0 <= internal < PICKUP_SLOTS,
    ensures
        ({
            let w = spec_window_slot(internal);
            (if w >= 36 { w - 36 } else { w }) == internal
        }),
{
}

/// The TakeItemEntity body.
pub fn take_item_body(entity: i32, collector: i32, amount: i32) -> (r: BytesMut)
    ensures
        bytes_mut_view(r) == take_body_spec(entity, collector, amount),
{
    let mut take = bytes_mut_new();
    VarInt(entity).write(&mut take);
    VarInt(collector).write(&mut take);
    VarInt(amount).write(&mut take);
    take
}

/// The ContainerSetSlot body for the player window.
pub fn container_slot_body(state_id: i32, window_slot: u16, stack: Option<ItemStack>) -> (r: BytesMut)
    ensures
        bytes_mut_view(r) == slot_body_spec(state_id, window_slot, stack),
{
    let mut slot_data = bytes_mut_new();
    bytes_mut_put_u8(&mut slot_data, 0);
    VarInt(state_id).write(&mut slot_data);
    put_i16(&mut slot_data, window_slot as i16);
    let ghost head = bytes_mut_view(slot_data);
    match stack {
        Some(st) => {
            VarInt(st.count).write(&mut slot_data);
            VarInt(st.item_id).write(&mut slot_data);
            VarInt(0i32).write(&mut slot_data);
            VarInt(0i32).write(&mut slot_data);
        },
        None => {
            VarInt(0i32).write(&mut slot_data);
        },
    }
    proof {
        assert(bytes_mut_view(slot_data) =~= slot_body_spec(state_id, window_slot, stack));
    }
    slot_data
}

} // verus!
