//! What each layer remembers between steps, and which layer's memory it uses.

use vstd::prelude::*;

verus! {

/// The part of a run of positions that is kept.
#[derive(Debug, Clone, Copy, PartialEq, Eq, Structural)]
pub struct Kept {
    /// The first position that stays.
    pub start: usize,
    /// How many stay.
    pub len: usize,
}

/// How many positions a layer's keys and values cover, and how many they may.
pub struct KvCache {
    /// `None` before anything is remembered.
    held: Option<usize>,
    max_seq_len: usize,
}

/// What a [`KvCache`] holds.
pub struct KvModel {
    pub held: Option<nat>,
    pub max: nat,
}

impl View for KvCache {
    type V = KvModel;

    closed spec fn view(&self) -> KvModel {
        KvModel {
            held: match self.held {
                Some(n) => Some(n as nat),
                None => None,
            },
            max: self.max_seq_len as nat,
        }
    }
}

impl KvModel {
    /// How many positions are covered.
    pub open spec fn len(self) -> nat {
        match self.held {
            Some(n) => n,
            None => 0,
        }
    }
}

/// The last `max` of `total` positions.
pub open spec fn latest(total: nat, max: nat) -> Kept {
    if total > max {
        Kept { start: (total - max) as usize, len: max as usize }
    } else {
        Kept { start: 0, len: total as usize }
    }
}

impl KvCache {
    pub fn new(max_seq_len: usize) -> (r: Self)
        ensures
            r@ == (KvModel { held: None, max: max_seq_len as nat }),
    {
        KvCache { held: None, max_seq_len }
    }

    /// Remember `new` more positions. Returns which of all the positions, old
    /// and new, are kept: the latest, as many as may be.
    pub fn append(&mut self, new: usize) -> (r: Kept)
        requires
            old(self)@.len() + new <= usize::MAX,
        ensures
            r == latest(old(self)@.len() + new as nat, old(self)@.max),
            final(self)@ == (KvModel { held: Some(r.len as nat), max: old(self)@.max }),
    {
        let before: usize = match self.held {
            Some(n) => n,
            None => 0,
        };
        let total: usize = before + new;
        let kept = if total > self.max_seq_len {
            Kept { start: total - self.max_seq_len, len: self.max_seq_len }
        } else {
            Kept { start: 0, len: total }
        };
        self.held = Some(kept.len);
        kept
    }

    /// Whether there is anything to read without appending.
    pub fn has_current(&self) -> (r: bool)
        ensures
            r == (self@.held is Some),
    {
        self.held.is_some()
    }

    /// Current cached sequence length.
    pub fn len(&self) -> (r: usize)
        ensures
            r == self@.len(),
    {
        match self.held {
            Some(n) => n,
            None => 0,
        }
    }

    pub fn is_empty(&self) -> (r: bool)
        ensures
            r == (self@.len() == 0),
    {
        self.len() == 0
    }

    pub fn reset(&mut self)
        ensures
            final(self)@ == (KvModel { held: None, max: old(self)@.max }),
    {
        self.held = None;
    }
}

/// A cache never covers more positions than it may, and what it keeps ends
/// with the newest.
pub proof fn law_the_latest_positions_are_kept(total: nat, max: nat)
    requires
        total <= usize::MAX,
    ensures
        latest(total, max).len <= max,
        latest(total, max).start + latest(total, max).len == total,
{
}

/// What a layer remembers.
#[derive(Debug, Clone, Copy, PartialEq, Eq, Structural)]
pub enum LayerKind {
    /// Keys and values.
    Kv,
    /// Another layer's keys and values.
    Shared { source_layer: usize },
    /// A recurrent state.
    Recurrent,
    /// Keys and values in compressed form.
    TurboKv,
}

/// The memory of a whole model, layer by layer.
pub struct ModelCache {
    pub layers: Vec<LayerKind>,
}

/// The layer whose memory a layer uses.
pub open spec fn target(layers: Seq<LayerKind>, layer: int) -> int {
    match layers[layer] {
        LayerKind::Shared { source_layer } => source_layer as int,
        _ => layer,
    }
}

impl ModelCache {
    /// The layer is there, and so is the one it shares with, if it does.
    pub open spec fn has(&self, layer: usize) -> bool {
        layer < self.layers@.len() && target(self.layers@, layer as int) < self.layers@.len()
    }

    pub fn new(layers: Vec<LayerKind>) -> (r: Self)
        ensures
            r.layers == layers,
    {
        ModelCache { layers }
    }

    fn resolve(&self, layer: usize) -> (r: usize)
        requires
            self.has(layer),
        ensures
            r == target(self.layers@, layer as int),
            r < self.layers@.len(),
    {
        match self.layers[layer] {
            LayerKind::Shared { source_layer } => source_layer,
            _ => layer,
        }
    }

    /// Whose keys and values a layer uses. Follows a shared layer to its
    /// source, once.
    pub fn get_kv(&self, layer: usize) -> (r: Option<usize>)
        requires
            self.has(layer),
        ensures
            r == (if self.layers@[target(self.layers@, layer as int)] == LayerKind::Kv {
                Some(target(self.layers@, layer as int) as usize)
            } else {
                None
            }),
    {
        let t: usize = self.resolve(layer);
        match self.layers[t] {
            LayerKind::Kv => Some(t),
            _ => None,
        }
    }

    /// Whether a layer has a recurrent state of its own.
    pub fn get_recurrent(&self, layer: usize) -> (r: Option<usize>)
        requires
            layer < self.layers@.len(),
        ensures
            r == (if self.layers@[layer as int] == LayerKind::Recurrent {
                Some(layer)
            } else {
                None
            }),
    {
        match self.layers[layer] {
            LayerKind::Recurrent => Some(layer),
            _ => None,
        }
    }

    /// Whose keys and values, or whose recurrent state, a layer uses: at most
    /// one of the two.
    pub fn get_layer(&self, layer: usize) -> (r: (Option<usize>, Option<usize>))
        requires
            self.has(layer),
        ensures
            ({
                let t = target(self.layers@, layer as int);
                r == (match self.layers@[t] {
                    LayerKind::Kv => (Some(t as usize), None::<usize>),
                    LayerKind::Recurrent => (None::<usize>, Some(t as usize)),
                    _ => (None, None),
                })
            }),
    {
        let t: usize = self.resolve(layer);
        match self.layers[t] {
            LayerKind::Kv => (Some(t), None),
            LayerKind::Recurrent => (None, Some(t)),
            _ => (None, None),
        }
    }

    /// Whose compressed keys and values a layer uses.
    pub fn get_turbo_kv(&self, layer: usize) -> (r: Option<usize>)
        requires
            self.has(layer),
        ensures
            r == (if self.layers@[target(self.layers@, layer as int)] == LayerKind::TurboKv {
                Some(target(self.layers@, layer as int) as usize)
            } else {
                None
            }),
    {
        let t: usize = self.resolve(layer);
        match self.layers[t] {
            LayerKind::TurboKv => Some(t),
            _ => None,
        }
    }
}

/// How many positions a compressed cache covers. It keeps all of them.
pub struct TurboKvCache {
    current_len: usize,
}

impl TurboKvCache {
    pub closed spec fn covered(&self) -> nat {
        self.current_len as nat
    }

    pub fn new() -> (r: Self)
        ensures
            r.covered() == 0,
    {
        TurboKvCache { current_len: 0 }
    }

    /// Remember `new` more positions.
    pub fn append(&mut self, new: usize)
        requires
            old(self).covered() + new <= usize::MAX,
        ensures
            final(self).covered() == old(self).covered() + new,
    {
        self.current_len = self.current_len + new;
    }

    pub fn len(&self) -> (r: usize)
        ensures
            r == self.covered(),
    {
        self.current_len
    }

    pub fn is_empty(&self) -> (r: bool)
        ensures
            r == (self.covered() == 0),
    {
        self.current_len == 0
    }

    pub fn reset(&mut self)
        ensures
            final(self).covered() == 0,
    {
        self.current_len = 0;
    }
}

} // verus!
