//! Globally unique identifiers of participants and endpoints.

use vstd::prelude::*;

use crate::structure::sorted_map::SortKey;

verus! {

/// Prefix shared by every endpoint of one participant: twelve bytes, held as three
/// big-endian words.
#[derive(Clone, Copy, Debug, PartialEq, Eq, Structural, Hash, PartialOrd, Ord)]
pub struct GuidPrefix {
    pub word_0: u32,
    pub word_1: u32,
    pub word_2: u32,
}

/// The word whose big-endian bytes are `a`, `b`, `c`, `d`.
pub open spec fn word_of(a: u8, b: u8, c: u8, d: u8) -> int {
    a * 0x100_0000 + b * 0x1_0000 + c * 0x100 + d
}

fn word(a: u8, b: u8, c: u8, d: u8) -> (w: u32)
    ensures
        w == word_of(a, b, c, d),
{
    a as u32 * 0x100_0000 + b as u32 * 0x1_0000 + c as u32 * 0x100 + d as u32
}

impl GuidPrefix {
    #[verifier::allow_in_spec]
    pub fn unknown() -> (r: GuidPrefix)
        returns
            (GuidPrefix { word_0: 0, word_1: 0, word_2: 0 }),
    {
        GuidPrefix { word_0: 0, word_1: 0, word_2: 0 }
    }

    pub fn new(bytes: &[u8; 12]) -> (p: GuidPrefix)
        ensures
            p.word_0 == word_of(bytes[0], bytes[1], bytes[2], bytes[3]),
            p.word_1 == word_of(bytes[4], bytes[5], bytes[6], bytes[7]),
            p.word_2 == word_of(bytes[8], bytes[9], bytes[10], bytes[11]),
    {
        GuidPrefix {
            word_0: word(bytes[0], bytes[1], bytes[2], bytes[3]),
            word_1: word(bytes[4], bytes[5], bytes[6], bytes[7]),
            word_2: word(bytes[8], bytes[9], bytes[10], bytes[11]),
        }
    }

    /// The twelve bytes read as one big-endian number.
    pub open spec fn number(self) -> int {
        (self.word_0 * 0x1_0000_0000 + self.word_1) * 0x1_0000_0000 + self.word_2
    }
}

impl SortKey for GuidPrefix {
    open spec fn rank(self) -> int {
        self.number()
    }

    proof fn lemma_rank_injective(a: Self, b: Self) {
    }

    fn precedes(&self, other: &Self) -> (r: bool) {
        if self.word_0 != other.word_0 {
            self.word_0 < other.word_0
        } else if self.word_1 != other.word_1 {
            self.word_1 < other.word_1
        } else {
            self.word_2 < other.word_2
        }
    }
}

/// The last octet of an entity id, which tells what the entity is.
#[derive(Clone, Copy, Debug, PartialEq, Eq, Structural, Hash, PartialOrd, Ord)]
pub struct EntityKind {
    pub value: u8,
}

impl EntityKind {
    /// An entity that no other participant gets to see.
    #[verifier::allow_in_spec]
    pub fn unknown_built_in() -> (r: EntityKind)
        returns
            (EntityKind { value: 0xC0 }),
    {
        EntityKind { value: 0xC0 }
    }

    #[verifier::allow_in_spec]
    pub fn writer_with_key_user_defined() -> (r: EntityKind)
        returns
            (EntityKind { value: 0x02 }),
    {
        EntityKind { value: 0x02 }
    }

    #[verifier::allow_in_spec]
    pub fn writer_no_key_user_defined() -> (r: EntityKind)
        returns
            (EntityKind { value: 0x03 }),
    {
        EntityKind { value: 0x03 }
    }

    #[verifier::allow_in_spec]
    pub fn reader_no_key_user_defined() -> (r: EntityKind)
        returns
            (EntityKind { value: 0x04 }),
    {
        EntityKind { value: 0x04 }
    }

    #[verifier::allow_in_spec]
    pub fn reader_with_key_user_defined() -> (r: EntityKind)
        returns
            (EntityKind { value: 0x07 }),
    {
        EntityKind { value: 0x07 }
    }

    /// The two top bits are set for the entities that discovery itself uses.
    pub open spec fn spec_is_built_in(self) -> bool {
        self.value >= 0xC0
    }

    pub fn is_built_in(&self) -> (r: bool)
        ensures
            r == self.spec_is_built_in(),
    {
        self.value >= 0xC0
    }

    /// The two top bits are clear for the entities of the application.
    pub open spec fn spec_is_user_defined(self) -> bool {
        self.value < 0x40
    }

    pub fn is_user_defined(&self) -> (r: bool)
        ensures
            r == self.spec_is_user_defined(),
    {
        self.value < 0x40
    }

    /// The low six bits tell the role of the entity, whoever defined it.
    pub open spec fn role(self) -> int {
        self.value as int % 64
    }

    pub open spec fn spec_is_reader(self) -> bool {
        self.role() == 0x04 || self.role() == 0x07
    }

    pub fn is_reader(&self) -> (r: bool)
        ensures
            r == self.spec_is_reader(),
    {
        let role: u8 = self.value % 64;
        role == 0x04 || role == 0x07
    }

    pub open spec fn spec_is_writer(self) -> bool {
        self.role() == 0x02 || self.role() == 0x03
    }

    pub fn is_writer(&self) -> (r: bool)
        ensures
            r == self.spec_is_writer(),
    {
        let role: u8 = self.value % 64;
        role == 0x02 || role == 0x03
    }
}

/// Identifies an endpoint inside its participant: a key of three octets and a kind.
#[derive(Clone, Copy, Debug, PartialEq, Eq, Structural, Hash, PartialOrd, Ord)]
pub struct EntityId {
    pub key_0: u8,
    pub key_1: u8,
    pub key_2: u8,
    pub entity_kind: EntityKind,
}

impl EntityId {
    #[verifier::allow_in_spec]
    pub fn unknown() -> (r: EntityId)
        returns
            (EntityId {
        key_0: 0,
        key_1: 0,
        key_2: 0,
        entity_kind: EntityKind { value: 0x00 },
    }),
    {
        EntityId {
        key_0: 0,
        key_1: 0,
        key_2: 0,
        entity_kind: EntityKind { value: 0x00 },
    }
    }

    #[verifier::allow_in_spec]
    pub fn max() -> (r: EntityId)
        returns
            (EntityId {
        key_0: 0xFF,
        key_1: 0xFF,
        key_2: 0xFF,
        entity_kind: EntityKind { value: 0xFF },
    }),
    {
        EntityId {
        key_0: 0xFF,
        key_1: 0xFF,
        key_2: 0xFF,
        entity_kind: EntityKind { value: 0xFF },
    }
    }

    #[verifier::allow_in_spec]
    pub fn spdp_builtin_participant_writer() -> (r: EntityId)
        returns
            (EntityId {
        key_0: 0x00,
        key_1: 0x01,
        key_2: 0x00,
        entity_kind: EntityKind { value: 0xC2 },
    }),
    {
        EntityId {
        key_0: 0x00,
        key_1: 0x01,
        key_2: 0x00,
        entity_kind: EntityKind { value: 0xC2 },
    }
    }

    #[verifier::allow_in_spec]
    pub fn p2p_builtin_participant_message_writer() -> (r: EntityId)
        returns
            (EntityId {
        key_0: 0x00,
        key_1: 0x02,
        key_2: 0x00,
        entity_kind: EntityKind { value: 0xC2 },
    }),
    {
        EntityId {
        key_0: 0x00,
        key_1: 0x02,
        key_2: 0x00,
        entity_kind: EntityKind { value: 0xC2 },
    }
    }

    #[verifier::allow_in_spec]
    pub fn p2p_builtin_participant_message_reader() -> (r: EntityId)
        returns
            (EntityId {
        key_0: 0x00,
        key_1: 0x02,
        key_2: 0x00,
        entity_kind: EntityKind { value: 0xC7 },
    }),
    {
        EntityId {
        key_0: 0x00,
        key_1: 0x02,
        key_2: 0x00,
        entity_kind: EntityKind { value: 0xC7 },
    }
    }

    #[verifier::allow_in_spec]
    pub fn p2p_builtin_participant_volatile_secure_writer() -> (r: EntityId)
        returns
            (EntityId {
        key_0: 0xFF,
        key_1: 0x02,
        key_2: 0x02,
        entity_kind: EntityKind { value: 0xC3 },
    }),
    {
        EntityId {
        key_0: 0xFF,
        key_1: 0x02,
        key_2: 0x02,
        entity_kind: EntityKind { value: 0xC3 },
    }
    }

    pub fn new(entity_key: [u8; 3], entity_kind: EntityKind) -> (id: EntityId)
        ensures
            id.key_0 == entity_key[0],
            id.key_1 == entity_key[1],
            id.key_2 == entity_key[2],
            id.entity_kind == entity_kind,
    {
        EntityId { key_0: entity_key[0], key_1: entity_key[1], key_2: entity_key[2], entity_kind }
    }

    /// The four octets read as one big-endian number.
    pub open spec fn number(self) -> int {
        word_of(self.key_0, self.key_1, self.key_2, self.entity_kind.value)
    }

    pub fn kind(&self) -> (k: EntityKind)
        ensures
            k == self.entity_kind,
    {
        self.entity_kind
    }
}

impl SortKey for EntityId {
    open spec fn rank(self) -> int {
        self.number()
    }

    proof fn lemma_rank_injective(a: Self, b: Self) {
        if a.rank() == b.rank() {
            assert(a.key_0 == b.key_0);
            assert(a.key_1 == b.key_1);
            assert(a.key_2 == b.key_2);
            assert(a.entity_kind.value == b.entity_kind.value);
        }
    }

    fn precedes(&self, other: &Self) -> (r: bool) {
        if self.key_0 != other.key_0 {
            self.key_0 < other.key_0
        } else if self.key_1 != other.key_1 {
            self.key_1 < other.key_1
        } else if self.key_2 != other.key_2 {
            self.key_2 < other.key_2
        } else {
            self.entity_kind.value < other.entity_kind.value
        }
    }
}

/// Identifies an endpoint among all participants.
#[derive(Clone, Copy, Debug, PartialEq, Eq, Structural, Hash, PartialOrd, Ord)]
pub struct GUID {
    pub prefix: GuidPrefix,
    pub entity_id: EntityId,
}

impl GUID {
    #[verifier::allow_in_spec]
    pub fn unknown() -> (r: GUID)
        returns
            (GUID {
        prefix: GuidPrefix { word_0: 0, word_1: 0, word_2: 0 },
        entity_id: EntityId {
            key_0: 0,
            key_1: 0,
            key_2: 0,
            entity_kind: EntityKind { value: 0x00 },
        },
    }),
    {
        GUID {
        prefix: GuidPrefix { word_0: 0, word_1: 0, word_2: 0 },
        entity_id: EntityId {
            key_0: 0,
            key_1: 0,
            key_2: 0,
            entity_kind: EntityKind { value: 0x00 },
        },
    }
    }

    pub fn new(prefix: GuidPrefix, entity_id: EntityId) -> (g: GUID)
        ensures
            g == (GUID { prefix, entity_id }),
    {
        GUID { prefix, entity_id }
    }

    pub fn new_with_prefix_and_id(prefix: GuidPrefix, entity_id: EntityId) -> (g: GUID)
        ensures
            g == (GUID { prefix, entity_id }),
    {
        GUID { prefix, entity_id }
    }

    /// The sixteen bytes read as one big-endian number.
    pub open spec fn number(self) -> int {
        self.prefix.number() * 0x1_0000_0000 + self.entity_id.number()
    }
}

impl SortKey for GUID {
    open spec fn rank(self) -> int {
        self.number()
    }

    proof fn lemma_rank_injective(a: Self, b: Self) {
        if a.rank() == b.rank() {
            assert(0 <= a.entity_id.rank() < 0x1_0000_0000);
            assert(0 <= b.entity_id.rank() < 0x1_0000_0000);
            assert(a.prefix.rank() == b.prefix.rank());
            assert(a.entity_id.rank() == b.entity_id.rank());
            GuidPrefix::lemma_rank_injective(a.prefix, b.prefix);
            EntityId::lemma_rank_injective(a.entity_id, b.entity_id);
        }
    }

    fn precedes(&self, other: &Self) -> (r: bool) {
        if self.prefix.precedes(&other.prefix) {
            true
        } else if other.prefix.precedes(&self.prefix) {
            false
        } else {
            self.entity_id.precedes(&other.entity_id)
        }
    }
}

/// An entity is of the application or of discovery, never both, and a reader or a writer,
/// never both. The kinds of the application are what their names say.
pub proof fn law_kinds_are_told_apart(kind: EntityKind)
    ensures
        !(kind.spec_is_built_in() && kind.spec_is_user_defined()),
        !(kind.spec_is_reader() && kind.spec_is_writer()),
        kind.spec_is_built_in() <==> kind.value / 64 == 3,
        kind.spec_is_user_defined() <==> kind.value / 64 == 0,
        EntityKind::writer_with_key_user_defined().spec_is_writer(),
        EntityKind::writer_with_key_user_defined().spec_is_user_defined(),
        EntityKind::writer_no_key_user_defined().spec_is_writer(),
        EntityKind::writer_no_key_user_defined().spec_is_user_defined(),
        EntityKind::reader_with_key_user_defined().spec_is_reader(),
        EntityKind::reader_with_key_user_defined().spec_is_user_defined(),
        EntityKind::reader_no_key_user_defined().spec_is_reader(),
        EntityKind::reader_no_key_user_defined().spec_is_user_defined(),
        EntityKind::writer_with_key_user_defined() != EntityKind::writer_no_key_user_defined(),
        EntityKind::reader_with_key_user_defined() != EntityKind::reader_no_key_user_defined(),
        EntityId::spdp_builtin_participant_writer().entity_kind.spec_is_built_in(),
        EntityId::spdp_builtin_participant_writer().entity_kind.spec_is_writer(),
        EntityId::p2p_builtin_participant_message_writer().entity_kind.spec_is_writer(),
        EntityId::p2p_builtin_participant_message_reader().entity_kind.spec_is_reader(),
        EntityId::p2p_builtin_participant_volatile_secure_writer().entity_kind.spec_is_writer(),
{
}

} // verus!
