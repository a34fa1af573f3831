//! The storage item: the untyped attribute form of a transaction.
//!
//! A stored item maps attribute names to tagged scalars (string or
//! number). Marshaling renders a transaction into the four attributes of
//! the table schema; unmarshaling decodes them back and reports a typed
//! error for anything absent, mistyped or non-canonical.

use vstd::prelude::*;
use vstd::string::StrSliceExecFns;

use crate::digits::cents_str;
use crate::digits::cents_to_dec;
use crate::digits::dec_of;
use crate::digits::digit_char;
use crate::digits::i32_to_dec;
use crate::digits::int_str;
use crate::digits::lemma_dec_of_injective;
use crate::digits::lemma_dec_of_shape;
use crate::digits::lemma_digit_char_val;
use crate::digits::parse_cents_dec;
use crate::digits::parse_i32_dec;
use crate::errors::DecodeError;
use crate::errors::FieldName;
use crate::transaction::Transaction;
use crate::transaction::TransactionModel;

verus! {

/// A tagged scalar attribute value: a string or a decimal number, the
/// number kept in its decimal rendering.
#[derive(Debug)]
pub enum AttrValue {
    S(String),
    N(String),
}

/// The mathematical value of an attribute value.
pub enum AttrModel {
    S(Seq<char>),
    N(Seq<char>),
}

impl View for AttrValue {
    type V = AttrModel;

    open spec fn view(&self) -> AttrModel {
        match self {
            AttrValue::S(s) => AttrModel::S(s@),
            AttrValue::N(s) => AttrModel::N(s@),
        }
    }
}

impl Clone for AttrValue {
    fn clone(&self) -> (v: AttrValue)
        ensures
            v == *self,
    {
        match self {
            AttrValue::S(s) => AttrValue::S(s.clone()),
            AttrValue::N(s) => AttrValue::N(s.clone()),
        }
    }
}

impl PartialEq for AttrValue {
    fn eq(&self, other: &AttrValue) -> (r: bool) {
        match (self, other) {
            (AttrValue::S(a), AttrValue::S(b)) => a.eq(b),
            (AttrValue::N(a), AttrValue::N(b)) => a.eq(b),
            _ => false,
        }
    }
}

impl vstd::std_specs::cmp::PartialEqSpecImpl for AttrValue {
    open spec fn obeys_eq_spec() -> bool {
        true
    }

    open spec fn eq_spec(&self, other: &AttrValue) -> bool {
        self@ == other@
    }
}

/// One named attribute of a stored item.
#[derive(Debug)]
pub struct AttrEntry {
    pub name: String,
    pub value: AttrValue,
}

/// The mathematical value of a named attribute.
pub struct EntryModel {
    pub name: Seq<char>,
    pub value: AttrModel,
}

impl View for AttrEntry {
    type V = EntryModel;

    open spec fn view(&self) -> EntryModel {
        EntryModel { name: self.name@, value: self.value@ }
    }
}

/// A stored item: a transient mapping from attribute names to tagged
/// scalars, looked up by the first entry of a name.
#[derive(Debug)]
pub struct StorageItem {
    pub entries: Vec<AttrEntry>,
}

impl View for StorageItem {
    type V = Seq<EntryModel>;

    open spec fn view(&self) -> Seq<EntryModel> {
        self.entries@.map_values(|e: AttrEntry| e@)
    }
}

/// The value of the first entry named `name`, if any.
pub open spec fn lookup(entries: Seq<EntryModel>, name: Seq<char>) -> Option<AttrModel>
    decreases entries.len(),
{
    if entries.len() == 0 {
        None
    } else if entries[0].name == name {
        Some(entries[0].value)
    } else {
        lookup(entries.drop_first(), name)
    }
}

impl StorageItem {
    /// An item with no attributes yet.
    pub fn empty() -> (item: StorageItem)
        ensures
            item@ =~= Seq::<EntryModel>::empty(),
    {
        StorageItem { entries: Vec::new() }
    }

    /// Appends the attribute `name` with `value`.
    pub fn insert(&mut self, name: &str, value: AttrValue)
        ensures
            final(self)@ =~= old(self)@.push(EntryModel { name: name@, value: value@ }),
    {
        self.entries.push(AttrEntry { name: name.to_owned(), value });
    }

    /// The value stored under `name`: the first entry of that name.
    pub fn get(&self, name: &str) -> (r: Option<&AttrValue>)
        ensures
            match r {
                Some(v) => lookup(self@, name@) == Some(v@),
                None => lookup(self@, name@) is None,
            },
    {
        let name_owned = name.to_owned();
        let n = self.entries.len();
        let mut i: usize = 0;
        proof {
            assert(self@.skip(0) =~= self@);
        }
        while i < n
            invariant
                0 <= i <= n,
                n == self.entries.len(),
                name_owned@ == name@,
                lookup(self@, name@) == lookup(self@.skip(i as int), name@),
                self@.len() == n,
            decreases n - i,
        {
            proof {
                assert(self@[i as int] == self.entries@[i as int]@);
                assert(self@.skip(i as int)[0] == self@[i as int]);
                assert(self@.skip(i as int).drop_first() =~= self@.skip(i + 1));
            }
            if self.entries[i].name.eq(&name_owned) {
                proof {
                    assert(lookup(self@, name@) == Some(self@[i as int].value));
                }
                return Some(&self.entries[i].value);
            }
            i = i + 1;
        }
        proof {
            assert(self@.skip(n as int) =~= Seq::<EntryModel>::empty());
        }
        None
    }
}

/// The item a transaction marshals to: its four fields as the four
/// attributes of the table schema, numbers in canonical decimal form.
pub open spec fn marshaled_model(m: TransactionModel) -> Seq<EntryModel> {
    seq![
        EntryModel { name: "source"@, value: AttrModel::S(m.source) },
        EntryModel { name: "id"@, value: AttrModel::N(int_str(m.id)) },
        EntryModel { name: "user_id"@, value: AttrModel::S(m.user_id) },
        EntryModel { name: "amount"@, value: AttrModel::N(cents_str(m.amount_cents)) },
    ]
}

/// Whether a stored item carries exactly the attributes of the
/// transaction model `m`, wherever they stand in the item.
pub open spec fn item_represents(entries: Seq<EntryModel>, m: TransactionModel) -> bool {
    &&& lookup(entries, "source"@) == Some(AttrModel::S(m.source))
    &&& m.source.len() > 0
    &&& lookup(entries, "id"@) == Some(AttrModel::N(int_str(m.id)))
    &&& i32::MIN <= m.id <= i32::MAX
    &&& lookup(entries, "user_id"@) == Some(AttrModel::S(m.user_id))
    &&& lookup(entries, "amount"@) == Some(AttrModel::N(cents_str(m.amount_cents)))
    &&& m.amount_cents <= u64::MAX
}

/// The decode error a stored item yields, if any, with the fields
/// examined in schema order: source, id, user_id, amount.
pub open spec fn decode_error_of(entries: Seq<EntryModel>) -> Option<DecodeError> {
    if lookup(entries, "source"@) is None {
        Some(DecodeError::Missing(FieldName::Source))
    } else if !(lookup(entries, "source"@) matches Some(AttrModel::S(_))) {
        Some(DecodeError::WrongKind(FieldName::Source))
    } else if (lookup(entries, "source"@) matches Some(AttrModel::S(s)) && s.len() == 0) {
        Some(DecodeError::EmptySource)
    } else if lookup(entries, "id"@) is None {
        Some(DecodeError::Missing(FieldName::Id))
    } else if !(lookup(entries, "id"@) matches Some(AttrModel::N(_))) {
        Some(DecodeError::WrongKind(FieldName::Id))
    } else if (lookup(entries, "id"@) matches Some(AttrModel::N(s))
        && forall|i: i32| s != int_str(i as int)) {
        Some(DecodeError::BadNumber(FieldName::Id))
    } else if lookup(entries, "user_id"@) is None {
        Some(DecodeError::Missing(FieldName::UserId))
    } else if !(lookup(entries, "user_id"@) matches Some(AttrModel::S(_))) {
        Some(DecodeError::WrongKind(FieldName::UserId))
    } else if lookup(entries, "amount"@) is None {
        Some(DecodeError::Missing(FieldName::Amount))
    } else if !(lookup(entries, "amount"@) matches Some(AttrModel::N(_))) {
        Some(DecodeError::WrongKind(FieldName::Amount))
    } else if (lookup(entries, "amount"@) matches Some(AttrModel::N(s))
        && forall|c: u64| s != cents_str(c as nat)) {
        Some(DecodeError::BadNumber(FieldName::Amount))
    } else {
        None
    }
}

/// Renders a transaction as a stored item.
pub fn marshal(t: &Transaction) -> (item: StorageItem)
    ensures
        item@ == marshaled_model(t@),
{
    let mut item = StorageItem::empty();
    item.insert("source", AttrValue::S(t.source.clone()));
    item.insert("id", AttrValue::N(i32_to_dec(t.id)));
    item.insert("user_id", AttrValue::S(t.user_id.clone()));
    item.insert("amount", AttrValue::N(cents_to_dec(t.amount_cents)));
    proof {
        assert(item@ =~= marshaled_model(t@));
    }
    item
}

/// Decodes a stored item back into a transaction. Succeeds exactly on
/// the items that carry all four attributes, each of the right kind, the
/// numbers canonical and in range, and the source non-empty; anything
/// else yields the typed error of the first field that fails.
pub fn unmarshal(item: &StorageItem) -> (r: Result<Transaction, DecodeError>)
    ensures
        r matches Ok(t) ==> t.wf() && item_represents(item@, t@),
        r matches Err(e) ==> decode_error_of(item@) == Some(e),
        r is Ok <==> decode_error_of(item@) is None,
        r is Err ==> forall|m: TransactionModel| !item_represents(item@, m),
{
    let source = match item.get("source") {
        None => {
            return Err(DecodeError::Missing(FieldName::Source));
        },
        Some(AttrValue::N(_)) => {
            return Err(DecodeError::WrongKind(FieldName::Source));
        },
        Some(AttrValue::S(s)) => s.clone(),
    };
    if source.as_str().is_empty() {
        return Err(DecodeError::EmptySource);
    }
    let id = match item.get("id") {
        None => {
            return Err(DecodeError::Missing(FieldName::Id));
        },
        Some(AttrValue::S(_)) => {
            return Err(DecodeError::WrongKind(FieldName::Id));
        },
        Some(AttrValue::N(s)) => match parse_i32_dec(s.as_str()) {
            None => {
                proof {
                    assert forall|m: TransactionModel| !item_represents(item@, m) by {
                        if i32::MIN <= m.id <= i32::MAX {
                            let i = m.id as i32;
                            assert(int_str(i as int) == int_str(m.id));
                        }
                    }
                }
                return Err(DecodeError::BadNumber(FieldName::Id));
            },
            Some(i) => i,
        },
    };
    let user_id = match item.get("user_id") {
        None => {
            return Err(DecodeError::Missing(FieldName::UserId));
        },
        Some(AttrValue::N(_)) => {
            return Err(DecodeError::WrongKind(FieldName::UserId));
        },
        Some(AttrValue::S(s)) => s.clone(),
    };
    let amount_cents = match item.get("amount") {
        None => {
            return Err(DecodeError::Missing(FieldName::Amount));
        },
        Some(AttrValue::S(_)) => {
            return Err(DecodeError::WrongKind(FieldName::Amount));
        },
        Some(AttrValue::N(s)) => match parse_cents_dec(s.as_str()) {
            None => {
                proof {
                    assert forall|m: TransactionModel| !item_represents(item@, m) by {
                        if m.amount_cents <= u64::MAX {
                            let c = m.amount_cents as u64;
                            assert(cents_str(c as nat) == cents_str(m.amount_cents));
                        }
                    }
                }
                return Err(DecodeError::BadNumber(FieldName::Amount));
            },
            Some(c) => c,
        },
    };
    Ok(Transaction::new(source, id, user_id, amount_cents))
}

/// Marshaling is injective on the four modeled fields: transactions
/// whose models differ in any field render to distinct stored items.
pub proof fn lemma_marshal_injective(m1: TransactionModel, m2: TransactionModel)
    requires
        m1 != m2,
    ensures
        marshaled_model(m1) != marshaled_model(m2),
{
    if marshaled_model(m1) == marshaled_model(m2) {
        assert(marshaled_model(m1)[0] == marshaled_model(m2)[0]);
        assert(marshaled_model(m1)[1] == marshaled_model(m2)[1]);
        assert(marshaled_model(m1)[2] == marshaled_model(m2)[2]);
        assert(marshaled_model(m1)[3] == marshaled_model(m2)[3]);
        lemma_int_str_injective(m1.id, m2.id);
        lemma_cents_str_injective(m1.amount_cents, m2.amount_cents);
    }
}

/// Signed canonical numerals are injective.
pub proof fn lemma_int_str_injective(a: int, b: int)
    requires
        int_str(a) == int_str(b),
    ensures
        a == b,
{
    lemma_dec_of_shape(if a >= 0 { a as nat } else { (-a) as nat });
    lemma_dec_of_shape(if b >= 0 { b as nat } else { (-b) as nat });
    if a >= 0 && b >= 0 {
        lemma_dec_of_injective(a as nat, b as nat);
    } else if a < 0 && b < 0 {
        assert(dec_of((-a) as nat).len() == dec_of((-b) as nat).len()) by {
            assert(int_str(a) == seq!['-'] + dec_of((-a) as nat));
            assert(int_str(b) == seq!['-'] + dec_of((-b) as nat));
            assert((seq!['-'] + dec_of((-a) as nat)).len() == 1 + dec_of((-a) as nat).len());
            assert((seq!['-'] + dec_of((-b) as nat)).len() == 1 + dec_of((-b) as nat).len());
            assert(int_str(a).len() == int_str(b).len());
        }
        assert(dec_of((-a) as nat) =~= dec_of((-b) as nat)) by {
            assert forall|i: int| 0 <= i < dec_of((-a) as nat).len() implies #[trigger] dec_of(
                (-a) as nat)[i] == dec_of((-b) as nat)[i] by {
                assert((seq!['-'] + dec_of((-a) as nat))[i + 1] == dec_of((-a) as nat)[i]);
                assert((seq!['-'] + dec_of((-b) as nat))[i + 1] == dec_of((-b) as nat)[i]);
                assert(int_str(a)[i + 1] == int_str(b)[i + 1]);
            }
        }
        lemma_dec_of_injective((-a) as nat, (-b) as nat);
    } else {
        // One numeral starts with the minus sign, the other with a digit.
        assert(int_str(a)[0] == int_str(b)[0]);
    }
}

/// Canonical cent renderings are injective.
pub proof fn lemma_cents_str_injective(a: nat, b: nat)
    requires
        cents_str(a) == cents_str(b),
    ensures
        a == b,
{
    lemma_dec_of_shape(a / 100);
    lemma_dec_of_shape(b / 100);
    let la = dec_of(a / 100).len() as int;
    let taila = seq!['.', digit_char((a % 100) / 10), digit_char((a % 100) % 10)];
    let tailb = seq!['.', digit_char((b % 100) / 10), digit_char((b % 100) % 10)];
    assert(cents_str(a).len() == la + 3);
    assert(cents_str(b).len() == cents_str(a).len());
    assert(dec_of(a / 100) =~= dec_of(b / 100)) by {
        assert forall|i: int| 0 <= i < la implies #[trigger] dec_of(a / 100)[i] == dec_of(
            b / 100)[i] by {
            assert((dec_of(a / 100) + taila)[i] == dec_of(a / 100)[i]);
            assert((dec_of(b / 100) + tailb)[i] == dec_of(b / 100)[i]);
            assert(cents_str(a)[i] == cents_str(b)[i]);
        }
    }
    lemma_dec_of_injective(a / 100, b / 100);
    assert((dec_of(a / 100) + taila)[la + 1] == taila[1]);
    assert((dec_of(b / 100) + tailb)[la + 1] == tailb[1]);
    assert((dec_of(a / 100) + taila)[la + 2] == taila[2]);
    assert((dec_of(b / 100) + tailb)[la + 2] == tailb[2]);
    assert(cents_str(a)[la + 1] == cents_str(b)[la + 1]);
    assert(cents_str(a)[la + 2] == cents_str(b)[la + 2]);
    lemma_digit_char_val((a % 100) / 10);
    lemma_digit_char_val((a % 100) % 10);
    lemma_digit_char_val((b % 100) / 10);
    lemma_digit_char_val((b % 100) % 10);
    assert((a % 100) / 10 == (b % 100) / 10 && (a % 100) % 10 == (b % 100) % 10);
    assert(a % 100 == ((a % 100) / 10) * 10 + (a % 100) % 10);
    assert(b % 100 == ((b % 100) / 10) * 10 + (b % 100) % 10);
    assert(a == (a / 100) * 100 + a % 100);
    assert(b == (b / 100) * 100 + b % 100);
}

/// A stored item represents at most one transaction model.
pub proof fn lemma_represents_unique(
    entries: Seq<EntryModel>,
    m1: TransactionModel,
    m2: TransactionModel,
)
    requires
        item_represents(entries, m1),
        item_represents(entries, m2),
    ensures
        m1 == m2,
{
    lemma_int_str_injective(m1.id, m2.id);
    lemma_cents_str_injective(m1.amount_cents, m2.amount_cents);
}

/// The item a transaction marshals to represents exactly that
/// transaction.
pub proof fn lemma_marshal_represents(m: TransactionModel)
    requires
        m.source.len() > 0,
        i32::MIN <= m.id <= i32::MAX,
        m.amount_cents <= u64::MAX,
    ensures
        item_represents(marshaled_model(m), m),
{
    reveal_strlit("source");
    reveal_strlit("id");
    reveal_strlit("user_id");
    reveal_strlit("amount");
    reveal_with_fuel(lookup, 5);
    let entries = marshaled_model(m);
    assert("source"@[0] != "id"@[0]);
    assert("source"@[0] != "user_id"@[0]);
    assert("source"@[0] != "amount"@[0]);
    assert("id"@[0] != "user_id"@[0]);
    assert("id"@[0] != "amount"@[0]);
    assert("user_id"@[0] != "amount"@[0]);
    assert(entries.drop_first() =~= entries.subrange(1, 4));
    assert(entries.subrange(1, 4).drop_first() =~= entries.subrange(2, 4));
    assert(entries.subrange(2, 4).drop_first() =~= entries.subrange(3, 4));
    assert(lookup(entries, "source"@) == Some(AttrModel::S(m.source)));
    assert(lookup(entries, "id"@) == Some(AttrModel::N(int_str(m.id))));
    assert(lookup(entries, "user_id"@) == Some(AttrModel::S(m.user_id)));
    assert(lookup(entries, "amount"@) == Some(AttrModel::N(cents_str(m.amount_cents))));
}

} // verus!
