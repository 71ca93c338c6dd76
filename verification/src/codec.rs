//! Codec registry: descriptor lookup and traversal, and owned packets.
//!
//! The registry is an explicit value holding every registered codec
//! descriptor. Lookup by id or by name returns the first matching
//! descriptor; a traversal yields each registry slot at most once and
//! terminates after the last slot.

use vstd::prelude::*;

verus! {

/// Numeric codec identifier.
pub type AVCodecID = u32;

/// Media kind tag (audio, video, subtitle, ...).
pub type AVMediaType = i32;

/// Enumerated pixel layout tag.
pub type AVPixelFormat = i32;

/// Enumerated accelerator device kind.
pub type AVHWDeviceType = i32;

/// Timestamp value meaning "unset".
pub const AV_NOPTS_VALUE: i64 = i64::MIN;

/// One hardware configuration of a codec: which pixel format it uses on
/// which accelerator device kind.
#[derive(Clone, Copy)]
pub struct AVCodecHWConfig {
    pub pix_fmt: AVPixelFormat,
    pub methods: i32,
    pub device_type: AVHWDeviceType,
}

/// An immutable codec descriptor as the registry holds it.
pub struct AVCodec {
    pub name: Vec<u8>,
    pub long_name: Vec<u8>,
    pub media_type: AVMediaType,
    pub id: AVCodecID,
    pub capabilities: isize,
    pub wrapper_name: Vec<u8>,
    /// Whether this descriptor names an encoder.
    pub encoder: bool,
    /// Whether this descriptor names a decoder.
    pub decoder: bool,
    /// The descriptor's hardware configurations, probed by index.
    pub hw_configs: Vec<AVCodecHWConfig>,
}

/// The registry of codec descriptors.
pub struct CodecRegistry {
    pub codecs: Vec<AVCodec>,
}

/// Index of the first descriptor at or after `i` with the given id and
/// direction, or `s.len()` if there is none.
pub open spec fn find_by_id(s: Seq<AVCodec>, id: AVCodecID, want_encoder: bool, i: int) -> int
    decreases s.len() - i,
{
    if 0 <= i < s.len() {
        if s[i].id == id && (if want_encoder {
            s[i].encoder
        } else {
            s[i].decoder
        }) {
            i
        } else {
            find_by_id(s, id, want_encoder, i + 1)
        }
    } else {
        s.len() as int
    }
}

/// Index of the first descriptor at or after `i` with the given name and
/// direction, or `s.len()` if there is none.
pub open spec fn find_by_name(s: Seq<AVCodec>, name: Seq<u8>, want_encoder: bool, i: int) -> int
    decreases s.len() - i,
{
    if 0 <= i < s.len() {
        if s[i].name@ == name && (if want_encoder {
            s[i].encoder
        } else {
            s[i].decoder
        }) {
            i
        } else {
            find_by_name(s, name, want_encoder, i + 1)
        }
    } else {
        s.len() as int
    }
}

/// Bounds and meaning of `find_by_id`.
pub proof fn lemma_find_by_id_props(s: Seq<AVCodec>, id: AVCodecID, want_encoder: bool, i: int)
    requires
        0 <= i <= s.len(),
    ensures
        i <= find_by_id(s, id, want_encoder, i) <= s.len(),
        find_by_id(s, id, want_encoder, i) < s.len() ==> {
            let m = find_by_id(s, id, want_encoder, i);
            s[m].id == id && (if want_encoder {
                s[m].encoder
            } else {
                s[m].decoder
            })
        },
        forall|j: int|
            i <= j < find_by_id(s, id, want_encoder, i) ==> !((#[trigger] s[j]).id == id && (
            if want_encoder {
                s[j].encoder
            } else {
                s[j].decoder
            })),
    decreases s.len() - i,
{
    if i < s.len() && !(s[i].id == id && (if want_encoder {
        s[i].encoder
    } else {
        s[i].decoder
    })) {
        lemma_find_by_id_props(s, id, want_encoder, i + 1);
    }
}

/// Bounds and meaning of `find_by_name`.
pub proof fn lemma_find_by_name_props(s: Seq<AVCodec>, name: Seq<u8>, want_encoder: bool, i: int)
    requires
        0 <= i <= s.len(),
    ensures
        i <= find_by_name(s, name, want_encoder, i) <= s.len(),
        find_by_name(s, name, want_encoder, i) < s.len() ==> {
            let m = find_by_name(s, name, want_encoder, i);
            s[m].name@ == name && (if want_encoder {
                s[m].encoder
            } else {
                s[m].decoder
            })
        },
        forall|j: int|
            i <= j < find_by_name(s, name, want_encoder, i) ==> !((#[trigger] s[j]).name@ == name
                && (if want_encoder {
                s[j].encoder
            } else {
                s[j].decoder
            })),
    decreases s.len() - i,
{
    if i < s.len() && !(s[i].name@ == name && (if want_encoder {
        s[i].encoder
    } else {
        s[i].decoder
    })) {
        lemma_find_by_name_props(s, name, want_encoder, i + 1);
    }
}

/// Lookup consistency: whatever `find_decoder` and `find_encoder` return
/// for an id, each returned descriptor carries exactly the queried id and
/// the queried direction — so for any id the two lookups either both find
/// nothing or return descriptors whose id equals the query.
pub proof fn lemma_find_id_consistent(s: Seq<AVCodec>, id: AVCodecID)
    ensures
        ({
            let d = find_by_id(s, id, false, 0);
            let e = find_by_id(s, id, true, 0);
            &&& (d < s.len() ==> s[d].id == id && s[d].decoder)
            &&& (e < s.len() ==> s[e].id == id && s[e].encoder)
        }),
{
    lemma_find_by_id_props(s, id, false, 0);
    lemma_find_by_id_props(s, id, true, 0);
}

impl AVCodec {
    /// A fresh traversal cursor over the registry, starting before the
    /// first slot.
    pub fn iterator() -> (it: AVCodecIter)
        ensures
            it.cursor() == 0,
            it.positions() == Seq::<int>::empty(),
            it.wf(),
    {
        AVCodecIter::new()
    }

    /// The first decoder descriptor with the given id, or nothing when no
    /// decoder in the registry has it.
    pub fn find_decoder(registry: &CodecRegistry, id: AVCodecID) -> (r: Option<&AVCodec>)
        ensures
            ({
                let m = find_by_id(registry.codecs@, id, false, 0);
                match r {
                    Some(c) => m < registry.codecs@.len() && *c == registry.codecs@[m],
                    None => m == registry.codecs@.len(),
                }
            }),
    {
        proof {
            lemma_find_by_id_props(registry.codecs@, id, false, 0);
        }
        let m = registry.find_slot_by_id(id, false);
        if m < registry.codecs.len() {
            Some(&registry.codecs[m])
        } else {
            None
        }
    }

    /// The first encoder descriptor with the given id, or nothing when no
    /// encoder in the registry has it.
    pub fn find_encoder(registry: &CodecRegistry, id: AVCodecID) -> (r: Option<&AVCodec>)
        ensures
            ({
                let m = find_by_id(registry.codecs@, id, true, 0);
                match r {
                    Some(c) => m < registry.codecs@.len() && *c == registry.codecs@[m],
                    None => m == registry.codecs@.len(),
                }
            }),
    {
        proof {
            lemma_find_by_id_props(registry.codecs@, id, true, 0);
        }
        let m = registry.find_slot_by_id(id, true);
        if m < registry.codecs.len() {
            Some(&registry.codecs[m])
        } else {
            None
        }
    }

    /// The first decoder descriptor with the given name, or nothing.
    pub fn find_decoder_by_name<'a>(registry: &'a CodecRegistry, name: &[u8]) -> (r: Option<
        &'a AVCodec,
    >)
        ensures
            ({
                let m = find_by_name(registry.codecs@, name@, false, 0);
                match r {
                    Some(c) => m < registry.codecs@.len() && *c == registry.codecs@[m],
                    None => m == registry.codecs@.len(),
                }
            }),
    {
        proof {
            lemma_find_by_name_props(registry.codecs@, name@, false, 0);
        }
        let m = registry.find_slot_by_name(name, false);
        if m < registry.codecs.len() {
            Some(&registry.codecs[m])
        } else {
            None
        }
    }

    /// The first encoder descriptor with the given name, or nothing.
    pub fn find_encoder_by_name<'a>(registry: &'a CodecRegistry, name: &[u8]) -> (r: Option<
        &'a AVCodec,
    >)
        ensures
            ({
                let m = find_by_name(registry.codecs@, name@, true, 0);
                match r {
                    Some(c) => m < registry.codecs@.len() && *c == registry.codecs@[m],
                    None => m == registry.codecs@.len(),
                }
            }),
    {
        proof {
            lemma_find_by_name_props(registry.codecs@, name@, true, 0);
        }
        let m = registry.find_slot_by_name(name, true);
        if m < registry.codecs.len() {
            Some(&registry.codecs[m])
        } else {
            None
        }
    }

    /// Whether this descriptor names an encoder.
    pub fn is_encoder(&self) -> (r: bool)
        ensures
            r == self.encoder,
    {
        self.encoder
    }

    /// Whether this descriptor names a decoder.
    pub fn is_decoder(&self) -> (r: bool)
        ensures
            r == self.decoder,
    {
        self.decoder
    }

    /// Probes the descriptor's hardware configuration list by index: one
    /// configuration per index from zero up, nothing past the end or for a
    /// negative index.
    pub fn get_hw_config(&self, idx: i32) -> (r: Option<AVCodecHWConfig>)
        ensures
            ({
                if 0 <= idx < self.hw_configs@.len() {
                    r == Some(self.hw_configs@[idx as int])
                } else {
                    r == None::<AVCodecHWConfig>
                }
            }),
    {
        if idx < 0 {
            return None;
        }
        let i = idx as usize;
        if i < self.hw_configs.len() {
            Some(self.hw_configs[i])
        } else {
            None
        }
    }
}

impl CodecRegistry {
    /// The slot of the first descriptor with this id and direction, or the
    /// number of slots when there is none.
    fn find_slot_by_id(&self, id: AVCodecID, want_encoder: bool) -> (m: usize)
        ensures
            m == find_by_id(self.codecs@, id, want_encoder, 0),
    {
        let n = self.codecs.len();
        let mut i: usize = 0;
        while i < n
            invariant
                0 <= i <= n,
                n == self.codecs@.len(),
                find_by_id(self.codecs@, id, want_encoder, 0) == find_by_id(
                    self.codecs@,
                    id,
                    want_encoder,
                    i as int,
                ),
            decreases n - i,
        {
            let c = &self.codecs[i];
            let hit = c.id == id && (if want_encoder {
                c.encoder
            } else {
                c.decoder
            });
            if hit {
                return i;
            }
            i += 1;
        }
        n
    }

    /// The slot of the first descriptor with this name and direction, or
    /// the number of slots when there is none.
    fn find_slot_by_name(&self, name: &[u8], want_encoder: bool) -> (m: usize)
        ensures
            m == find_by_name(self.codecs@, name@, want_encoder, 0),
    {
        let n = self.codecs.len();
        let mut i: usize = 0;
        while i < n
            invariant
                0 <= i <= n,
                n == self.codecs@.len(),
                find_by_name(self.codecs@, name@, want_encoder, 0) == find_by_name(
                    self.codecs@,
                    name@,
                    want_encoder,
                    i as int,
                ),
            decreases n - i,
        {
            let dir_ok: bool = if want_encoder {
                self.codecs[i].encoder
            } else {
                self.codecs[i].decoder
            };
            if dir_ok && crate::dict::bytes_eq(self.codecs[i].name.as_slice(), name) {
                return i;
            }
            i += 1;
        }
        n
    }
}

/// A traversal cursor over the codec registry. One pass visits the slots
/// in order; the ghost record of visited slots shows that no slot is ever
/// yielded twice.
pub struct AVCodecIter {
    pos: usize,
    visited: Ghost<Seq<int>>,
}

impl AVCodecIter {
    /// The slot the cursor stands before.
    pub closed spec fn cursor(&self) -> int {
        self.pos as int
    }

    /// The slots yielded so far, in order.
    pub closed spec fn positions(&self) -> Seq<int> {
        self.visited@
    }

    /// Well-formed: the yielded slots are strictly increasing and all lie
    /// before the cursor.
    pub open spec fn wf(&self) -> bool {
        &&& forall|i: int, j: int|
            0 <= i < j < self.positions().len() ==> #[trigger] self.positions()[i]
                < #[trigger] self.positions()[j]
        &&& forall|i: int|
            0 <= i < self.positions().len() ==> 0 <= #[trigger] self.positions()[i]
                < self.cursor()
    }

    /// A fresh cursor standing before the first slot.
    fn new() -> (it: Self)
        ensures
            it.cursor() == 0,
            it.positions() == Seq::<int>::empty(),
            it.wf(),
    {
        AVCodecIter { pos: 0, visited: Ghost(Seq::empty()) }
    }

    /// Yields the descriptor the cursor stands before and advances, or
    /// nothing once the cursor has passed the last slot: the traversal
    /// terminates, and a cursor at the end stays there.
    pub fn next<'a>(&mut self, registry: &'a CodecRegistry) -> (r: Option<&'a AVCodec>)
        requires
            old(self).wf(),
        ensures
            final(self).wf(),
            final(self).positions().len() >= old(self).positions().len(),
            ({
                if old(self).cursor() < registry.codecs@.len() {
                    &&& r == Some(&registry.codecs[old(self).cursor()])
                    &&& final(self).cursor() == old(self).cursor() + 1
                    &&& final(self).positions() == old(self).positions().push(old(self).cursor())
                } else {
                    &&& r == None::<&'a AVCodec>
                    &&& final(self).cursor() == old(self).cursor()
                    &&& final(self).positions() == old(self).positions()
                }
            }),
    {
        if self.pos < registry.codecs.len() {
            let c = &registry.codecs[self.pos];
            proof {
                self.visited@ = self.visited@.push(self.pos as int);
            }
            self.pos = self.pos + 1;
            Some(c)
        } else {
            None
        }
    }
}

/// In a strictly increasing sequence of non-negative integers, the entry
/// at position `i` is at least `i`.
proof fn lemma_strictly_increasing_ge(s: Seq<int>, i: int)
    requires
        forall|a: int, b: int| 0 <= a < b < s.len() ==> #[trigger] s[a] < #[trigger] s[b],
        forall|a: int| 0 <= a < s.len() ==> #[trigger] s[a] >= 0,
        0 <= i < s.len(),
    ensures
        s[i] >= i,
    decreases i,
{
    if i > 0 {
        lemma_strictly_increasing_ge(s, i - 1);
        assert(s[i - 1] < s[i]);
    }
}

/// Traversal termination: one pass yields at most as many descriptors as
/// the cursor has advanced, so a pass over a registry of `n` slots ends
/// after at most `n` yields and then yields nothing forever.
pub proof fn lemma_iterate_terminates(it: AVCodecIter)
    requires
        it.wf(),
    ensures
        it.positions().len() <= it.cursor(),
{
    if it.positions().len() > 0 {
        let last = it.positions().len() - 1;
        lemma_strictly_increasing_ge(it.positions(), last as int);
        assert(it.positions()[last as int] < it.cursor());
    }
}

/// Traversal distinctness: the record of slots one pass has yielded never
/// names the same registry slot twice.
pub proof fn lemma_iterate_distinct(it: AVCodecIter)
    requires
        it.wf(),
    ensures
        forall|i: int, j: int|
            0 <= i < it.positions().len() && 0 <= j < it.positions().len() && i != j
                ==> #[trigger] it.positions()[i] != #[trigger] it.positions()[j],
{
}

/// An owned packet: a byte buffer with timing metadata. `unref` clears the
/// content while the backing storage's capacity is retained, so a packet
/// can be reused across receive iterations.
pub struct AVPacket {
    pub data: Vec<u8>,
    pub pts: i64,
    pub dts: i64,
}

impl AVPacket {
    /// A fresh packet with no content and unset timestamps.
    pub fn new() -> (p: Self)
        ensures
            p.data@ == Seq::<u8>::empty(),
            p.pts == AV_NOPTS_VALUE,
            p.dts == AV_NOPTS_VALUE,
    {
        let p = AVPacket { data: Vec::new(), pts: AV_NOPTS_VALUE, dts: AV_NOPTS_VALUE };
        proof {
            assert(p.data@ =~= Seq::<u8>::empty());
        }
        p
    }

    /// A read-only view of the packet's bytes.
    pub fn get_data(&self) -> (d: &[u8])
        ensures
            d@ == self.data@,
    {
        self.data.as_slice()
    }

    /// Clears the content and resets the timestamps; the backing storage
    /// is kept for reuse.
    pub fn unref(&mut self)
        ensures
            final(self).data@ == Seq::<u8>::empty(),
            final(self).pts == AV_NOPTS_VALUE,
            final(self).dts == AV_NOPTS_VALUE,
    {
        self.data.clear();
        self.pts = AV_NOPTS_VALUE;
        self.dts = AV_NOPTS_VALUE;
    }
}

} // verus!
