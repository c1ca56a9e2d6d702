//! Message kinds as data: each kind of message has a name, an opcode and a
//! size, and a schema answers for a name what its opcode and its size are.
//!
//! A kind is declared by its name and a list of attributes, each a key and
//! a number. The keys are `opcode` and `size`; both must be there.

use vstd::prelude::*;
use vstd::utf8::encode_utf8_decode_utf8;

verus! {

/// Why a declaration of message kinds is not a schema.
#[derive(Debug, Clone, Copy, PartialEq, Eq, Structural)]
pub enum SchemaError {
    /// An attribute has a key other than `opcode` and `size`.
    UnknownKey,
    /// A kind has no attribute `opcode`.
    MissingOpcode,
    /// A kind has no attribute `size`.
    MissingSize,
}

/// One kind of message.
#[derive(Debug, Clone)]
pub struct MessageKind {
    name: String,
    opcode: i32,
    size: i32,
}

/// What a [`MessageKind`] is, as mathematics.
pub struct MessageKindView {
    /// The name of the kind.
    pub name: Seq<char>,
    /// The number that announces a message of this kind.
    pub opcode: i32,
    /// The number of bytes of such a message, or a negative number for a variable size.
    pub size: i32,
}

impl View for MessageKind {
    type V = MessageKindView;

    closed spec fn view(&self) -> MessageKindView {
        MessageKindView { name: self.name@, opcode: self.opcode, size: self.size }
    }
}

/// The kinds of messages of a protocol, in the order of their declaration.
#[derive(Debug, Clone)]
pub struct Schema {
    kinds: Vec<MessageKind>,
}

impl View for Schema {
    type V = Seq<MessageKindView>;

    closed spec fn view(&self) -> Seq<MessageKindView> {
        Seq::new(self.kinds@.len(), |i: int| self.kinds@[i]@)
    }
}

/// An attribute as mathematics: its key and its number.
pub type AttributeView = (Seq<char>, i32);

/// A declaration as mathematics: the name of a kind and its attributes.
pub type DeclarationView = (Seq<char>, Seq<AttributeView>);

/// The key of the attribute that holds the opcode.
pub open spec fn opcode_key() -> Seq<char> {
    "opcode"@
}

/// The key of the attribute that holds the size.
pub open spec fn size_key() -> Seq<char> {
    "size"@
}

/// Whether every key among `attributes` is `opcode` or `size`.
pub open spec fn keys_known(attributes: Seq<AttributeView>) -> bool {
    forall|i: int|
        0 <= i < attributes.len() ==> attributes[i].0 == opcode_key() || attributes[i].0
            == size_key()
}

/// The number of the last attribute with the key `key`, if there is one.
pub open spec fn last_value(attributes: Seq<AttributeView>, key: Seq<char>) -> Option<i32>
    decreases attributes.len(),
{
    if attributes.len() == 0 {
        None
    } else if attributes.last().0 == key {
        Some(attributes.last().1)
    } else {
        last_value(attributes.drop_last(), key)
    }
}

/// The first kind among `kinds` with the name `name`, if there is one.
pub open spec fn first_named(kinds: Seq<MessageKindView>, name: Seq<char>) -> Option<MessageKindView>
    decreases kinds.len(),
{
    if kinds.len() == 0 {
        None
    } else if kinds[0].name == name {
        Some(kinds[0])
    } else {
        first_named(kinds.drop_first(), name)
    }
}

/// The first of `declarations` that has an unknown key or no opcode, if there is one.
pub open spec fn first_bad_opcode(declarations: Seq<DeclarationView>) -> Option<SchemaError>
    decreases declarations.len(),
{
    if declarations.len() == 0 {
        None
    } else if !keys_known(declarations[0].1) {
        Some(SchemaError::UnknownKey)
    } else if last_value(declarations[0].1, opcode_key()) is None {
        Some(SchemaError::MissingOpcode)
    } else {
        first_bad_opcode(declarations.drop_first())
    }
}

/// Whether each of `declarations` has a size.
pub open spec fn sizes_present(declarations: Seq<DeclarationView>) -> bool {
    forall|i: int|
        0 <= i < declarations.len() ==> last_value(declarations[i].1, size_key()) is Some
}

/// The kind that a declaration with an opcode and a size declares.
pub open spec fn declared_kind(declaration: DeclarationView) -> MessageKindView {
    MessageKindView {
        name: declaration.0,
        opcode: last_value(declaration.1, opcode_key())->Some_0,
        size: last_value(declaration.1, size_key())->Some_0,
    }
}

/// The attributes of a declaration, as mathematics.
pub open spec fn attributes_view(attributes: &[(&str, i32)]) -> Seq<AttributeView> {
    Seq::new(attributes@.len(), |i: int| (attributes@[i].0@, attributes@[i].1))
}

/// The declarations of a protocol, as mathematics.
pub open spec fn declarations_view(declarations: &[(&str, &[(&str, i32)])]) -> Seq<DeclarationView> {
    Seq::new(
        declarations@.len(),
        |i: int| (declarations@[i].0@, attributes_view(declarations@[i].1)),
    )
}

/// Whether two texts are the same.
pub fn same_text(left: &str, right: &str) -> (same: bool)
    ensures
        same == (left@ == right@),
{
    let a = left.as_bytes();
    let b = right.as_bytes();
    proof {
        encode_utf8_decode_utf8(left@);
        encode_utf8_decode_utf8(right@);
    }
    if a.len() != b.len() {
        return false;
    }
    let mut i: usize = 0;
    while i < a.len()
        invariant
            i <= a@.len(),
            a@.len() == b@.len(),
            (left@ == right@) == (a@ == b@),
            forall|j: int| 0 <= j < i ==> a@[j] == b@[j],
        decreases a@.len() - i,
    {
        if a[i] != b[i] {
            return false;
        }
        i = i + 1;
    }
    assert(a@ =~= b@);
    true
}

/// Reads the opcode and the size out of the attributes of one kind.
///
/// Of several attributes with one key the last counts. An attribute with
/// a key other than `opcode` and `size` is an error.
pub fn parse_packet_attributes(attributes: &[(&str, i32)]) -> (result: Result<
    (Option<i32>, Option<i32>),
    SchemaError,
>)
    ensures
        !keys_known(attributes_view(attributes)) ==> result == Err::<
            (Option<i32>, Option<i32>),
            SchemaError,
        >(SchemaError::UnknownKey),
        keys_known(attributes_view(attributes)) ==> result == Ok::<
            (Option<i32>, Option<i32>),
            SchemaError,
        >(
            (
                last_value(attributes_view(attributes), opcode_key()),
                last_value(attributes_view(attributes), size_key()),
            ),
        ),
{
    let ghost all = attributes_view(attributes);
    let mut opcode: Option<i32> = None;
    let mut size: Option<i32> = None;
    let mut i: usize = 0;
    proof {
        reveal_strlit("opcode");
        reveal_strlit("size");
        assert(opcode_key() != size_key()) by {
            assert(opcode_key().len() != size_key().len());
        }
    }
    while i < attributes.len()
        invariant
            i <= attributes@.len(),
            all == attributes_view(attributes),
            opcode_key() != size_key(),
            keys_known(all.subrange(0, i as int)),
            opcode == last_value(all.subrange(0, i as int), opcode_key()),
            size == last_value(all.subrange(0, i as int), size_key()),
        decreases attributes@.len() - i,
    {
        let key: &str = attributes[i].0;
        let value: i32 = attributes[i].1;
        let ghost next = all.subrange(0, i + 1);
        proof {
            assert(next.drop_last() =~= all.subrange(0, i as int));
            assert(next.last() == all[i as int]);
        }
        if same_text(key, "opcode") {
            opcode = Some(value);
        } else if same_text(key, "size") {
            size = Some(value);
        } else {
            return Err(SchemaError::UnknownKey);
        }
        i = i + 1;
    }
    assert(all.subrange(0, i as int) =~= all);
    Ok((opcode, size))
}

impl Schema {
    /// A schema without kinds.
    pub fn new() -> (schema: Self)
        ensures
            schema@.len() == 0,
    {
        Schema { kinds: Vec::new() }
    }

    /// The number of kinds.
    pub fn len(&self) -> (count: usize)
        ensures
            count == self@.len(),
    {
        self.kinds.len()
    }

    /// The first kind with the name `name`, if there is one.
    fn find(&self, name: &str) -> (found: Option<&MessageKind>)
        ensures
            match first_named(self@, name@) {
                Some(kind) => found is Some && found->Some_0@ == kind,
                None => found is None,
            },
    {
        let mut i: usize = 0;
        assert(self@.subrange(0, self@.len() as int) =~= self@);
        while i < self.kinds.len()
            invariant
                i <= self.kinds@.len(),
                first_named(self@, name@) == first_named(self@.subrange(i as int, self@.len() as int), name@),
            decreases self.kinds@.len() - i,
        {
            let ghost rest = self@.subrange(i as int, self@.len() as int);
            proof {
                assert(rest.drop_first() =~= self@.subrange(i + 1, self@.len() as int));
            }
            if same_text(self.kinds[i].name.as_str(), name) {
                return Some(&self.kinds[i]);
            }
            i = i + 1;
        }
        None
    }

    /// The opcode of the first kind with the name `name`, if there is one.
    pub fn opcode(&self, name: &str) -> (opcode: Option<i32>)
        ensures
            opcode == match first_named(self@, name@) {
                Some(kind) => Some(kind.opcode),
                None => None,
            },
    {
        match self.find(name) {
            Some(kind) => Some(kind.opcode),
            None => None,
        }
    }

    /// The size of the first kind with the name `name`, if there is one.
    pub fn size(&self, name: &str) -> (size: Option<i32>)
        ensures
            size == match first_named(self@, name@) {
                Some(kind) => Some(kind.size),
                None => None,
            },
    {
        match self.find(name) {
            Some(kind) => Some(kind.size),
            None => None,
        }
    }
}

/// Makes the schema of a protocol out of the declarations of its kinds.
///
/// Every declaration must have known keys only and an opcode; the first
/// that has not is the error. Then every declaration must have a size. The
/// kinds of the schema are the declared kinds, in order.
pub fn protocol_derive(declarations: &[(&str, &[(&str, i32)])]) -> (result: Result<
    Schema,
    SchemaError,
>)
    ensures
        ({
            let all = declarations_view(declarations);
            match first_bad_opcode(all) {
                Some(error) => result == Err::<Schema, SchemaError>(error),
                None => if sizes_present(all) {
                    &&& result is Ok
                    &&& result->Ok_0@ == Seq::new(all.len(), |i: int| declared_kind(all[i]))
                } else {
                    result == Err::<Schema, SchemaError>(SchemaError::MissingSize)
                },
            }
        }),
{
    let ghost all = declarations_view(declarations);
    let mut opcodes: Vec<i32> = Vec::new();
    let mut sizes: Vec<Option<i32>> = Vec::new();
    let mut i: usize = 0;
    assert(all.subrange(0, all.len() as int) =~= all);
    while i < declarations.len()
        invariant
            i <= declarations@.len(),
            all == declarations_view(declarations),
            opcodes@.len() == i,
            sizes@.len() == i,
            first_bad_opcode(all) == first_bad_opcode(all.subrange(i as int, all.len() as int)),
            forall|j: int|
                0 <= j < i ==> last_value(all[j].1, opcode_key()) == Some(#[trigger] opcodes@[j]),
            forall|j: int| 0 <= j < i ==> last_value(all[j].1, size_key()) == #[trigger] sizes@[j],
        decreases declarations@.len() - i,
    {
        let ghost rest = all.subrange(i as int, all.len() as int);
        proof {
            assert(rest.drop_first() =~= all.subrange(i + 1, all.len() as int));
        }
        match parse_packet_attributes(declarations[i].1) {
            Err(error) => {
                return Err(error);
            },
            Ok((opcode, size)) => {
                match opcode {
                    None => {
                        return Err(SchemaError::MissingOpcode);
                    },
                    Some(code) => {
                        opcodes.push(code);
                        sizes.push(size);
                    },
                }
            },
        }
        i = i + 1;
    }
    let mut kinds: Vec<MessageKind> = Vec::new();
    let mut k: usize = 0;
    while k < declarations.len()
        invariant
            k <= declarations@.len(),
            all == declarations_view(declarations),
            first_bad_opcode(all) is None,
            opcodes@.len() == declarations@.len(),
            sizes@.len() == declarations@.len(),
            kinds@.len() == k,
            forall|j: int|
                0 <= j < all.len() ==> last_value(all[j].1, opcode_key()) == Some(
                    #[trigger] opcodes@[j],
                ),
            forall|j: int|
                0 <= j < all.len() ==> last_value(all[j].1, size_key()) == #[trigger] sizes@[j],
            forall|j: int| 0 <= j < k ==> sizes@[j] is Some,
            forall|j: int| 0 <= j < k ==> (#[trigger] kinds@[j])@ == declared_kind(all[j]),
        decreases declarations@.len() - k,
    {
        match sizes[k] {
            None => {
                return Err(SchemaError::MissingSize);
            },
            Some(size) => {
                let kind = MessageKind {
                    name: declarations[k].0.to_owned(),
                    opcode: opcodes[k],
                    size,
                };
                kinds.push(kind);
            },
        }
        k = k + 1;
    }
    let schema = Schema { kinds };
    assert(sizes_present(all)) by {
        assert forall|j: int| 0 <= j < all.len() implies last_value(all[j].1, size_key())
            is Some by {
            assert(sizes@[j] is Some);
        }
    }
    Ok(schema)
}

} // verus!
