//! The fields of fiscal documents that this library reads and writes, with the
//! kind of value each holds, and typed access to them.
use vstd::prelude::*;
use crate::object::{
    first_value, set_value, values_of, value_view, DateTime, FieldValue, FiscalError, Object,
    Value,
};

verus! {

/// Дата, время (1012).
pub const DATE_TIME: u16 = 1012;
/// Общая сумма по чеку, в копейках (1020).
pub const TOTAL_SUM: u16 = 1020;
/// Количество предмета расчета (1023).
pub const ITEM_QUANTITY: u16 = 1023;
/// Наименование предмета расчета (1030).
pub const ITEM_NAME: u16 = 1030;
/// Номер ФД (1040).
pub const DOC_NUM: u16 = 1040;
/// Номер ФН (1041).
pub const DRIVE_NUM: u16 = 1041;
/// Стоимость предмета расчета (1043).
pub const ITEM_TOTAL_PRICE: u16 = 1043;
/// Наименование пользователя (1048).
pub const USER: u16 = 1048;
/// ИНН пользователя (1018).
pub const USER_INN: u16 = 1018;
/// Адрес расчетов (1009).
pub const RETAIL_PLACE_ADDRESS: u16 = 1009;
/// Признак расчета (1054).
pub const PAYMENT_TYPE: u16 = 1054;
/// Предмет расчета, a nested record (1059).
pub const RECEIPT_ITEM: u16 = 1059;
/// Адрес сайта ФНС (1060).
pub const FNS_URL: u16 = 1060;
/// ФПД (1077).
pub const DOC_FISCAL_SIGN: u16 = 1077;
/// Цена за единицу предмета расчета (1079).
pub const ITEM_UNIT_PRICE: u16 = 1079;
/// Место расчетов (1187).
pub const RETAIL_PLACE: u16 = 1187;
/// Единица измерения предмета расчета (1197).
pub const UNIT: u16 = 1197;
/// Номер версии ФФД ККТ (1209).
pub const KKT_FFD_VER: u16 = 1209;
/// Признак способа расчета (1214).
pub const PAYMENT_METHOD: u16 = 1214;
/// Мера количества предмета расчета (2108).
pub const ITEM_QUANTITY_UNIT: u16 = 2108;

/// Признак расчета (tag 1054).
#[derive(Clone, Copy, Debug, PartialEq, Eq, Structural)]
pub enum PaymentType {
    Unknown,
    /// Приход.
    Sale,
    /// Возврат прихода.
    SaleReturn,
    /// Расход.
    Purchase,
    /// Возврат расхода.
    PurchaseReturn,
}

pub open spec fn payment_type_of(code: u8) -> PaymentType {
    if code == 1 {
        PaymentType::Sale
    } else if code == 2 {
        PaymentType::SaleReturn
    } else if code == 3 {
        PaymentType::Purchase
    } else if code == 4 {
        PaymentType::PurchaseReturn
    } else {
        PaymentType::Unknown
    }
}

pub open spec fn payment_type_code(t: PaymentType) -> u8 {
    match t {
        PaymentType::Unknown => 0,
        PaymentType::Sale => 1,
        PaymentType::SaleReturn => 2,
        PaymentType::Purchase => 3,
        PaymentType::PurchaseReturn => 4,
    }
}

impl PaymentType {
    /// The payment type with the code `code`; `Unknown` for any code but 1 to 4.
    pub fn from_code(code: u8) -> (r: PaymentType)
        ensures
            r == payment_type_of(code),
    {
        if code == 1 {
            PaymentType::Sale
        } else if code == 2 {
            PaymentType::SaleReturn
        } else if code == 3 {
            PaymentType::Purchase
        } else if code == 4 {
            PaymentType::PurchaseReturn
        } else {
            PaymentType::Unknown
        }
    }

    /// The code of the payment type (0 for `Unknown`).
    pub fn code(&self) -> (r: u8)
        ensures
            r == payment_type_code(*self),
    {
        match self {
            PaymentType::Unknown => 0,
            PaymentType::Sale => 1,
            PaymentType::SaleReturn => 2,
            PaymentType::Purchase => 3,
            PaymentType::PurchaseReturn => 4,
        }
    }
}

/// Признак способа расчета (tag 1214).
#[derive(Clone, Copy, Debug, PartialEq, Eq, Structural)]
pub enum PaymentMethod {
    Unknown,
    /// Предоплата 100%.
    FullPrepaid,
    /// Предоплата.
    Prepaid,
    /// Аванс.
    Advance,
    /// Полный расчет.
    Full,
    /// Частичный расчет и кредит.
    PartialAndCredit,
    /// Передача в кредит.
    Credit,
    /// Оплата кредита.
    PaymentOfCredit,
}

pub open spec fn payment_method_of(code: u8) -> PaymentMethod {
    if code == 1 {
        PaymentMethod::FullPrepaid
    } else if code == 2 {
        PaymentMethod::Prepaid
    } else if code == 3 {
        PaymentMethod::Advance
    } else if code == 4 {
        PaymentMethod::Full
    } else if code == 5 {
        PaymentMethod::PartialAndCredit
    } else if code == 6 {
        PaymentMethod::Credit
    } else if code == 7 {
        PaymentMethod::PaymentOfCredit
    } else {
        PaymentMethod::Unknown
    }
}

impl PaymentMethod {
    /// The payment method with the code `code`.
    pub fn from_code(code: u8) -> (r: PaymentMethod)
        ensures
            r == payment_method_of(code),
    {
        if code == 1 {
            PaymentMethod::FullPrepaid
        } else if code == 2 {
            PaymentMethod::Prepaid
        } else if code == 3 {
            PaymentMethod::Advance
        } else if code == 4 {
            PaymentMethod::Full
        } else if code == 5 {
            PaymentMethod::PartialAndCredit
        } else if code == 6 {
            PaymentMethod::Credit
        } else if code == 7 {
            PaymentMethod::PaymentOfCredit
        } else {
            PaymentMethod::Unknown
        }
    }
}

/// Номер версии ФФД (tag 1209).
#[derive(Clone, Copy, Debug, PartialEq, Eq, Structural)]
pub enum FfdVersion {
    Unknown,
    V1,
    V1_05,
    V1_1,
    V1_2,
}

pub open spec fn ffd_version_of(code: u8) -> FfdVersion {
    if code == 1 {
        FfdVersion::V1
    } else if code == 2 {
        FfdVersion::V1_05
    } else if code == 3 {
        FfdVersion::V1_1
    } else if code == 4 {
        FfdVersion::V1_2
    } else {
        FfdVersion::Unknown
    }
}

pub open spec fn ffd_version_code(v: FfdVersion) -> u8 {
    match v {
        FfdVersion::Unknown => 0,
        FfdVersion::V1 => 1,
        FfdVersion::V1_05 => 2,
        FfdVersion::V1_1 => 3,
        FfdVersion::V1_2 => 4,
    }
}

impl FfdVersion {
    /// The version with the code `code`.
    pub fn from_code(code: u8) -> (r: FfdVersion)
        ensures
            r == ffd_version_of(code),
    {
        if code == 1 {
            FfdVersion::V1
        } else if code == 2 {
            FfdVersion::V1_05
        } else if code == 3 {
            FfdVersion::V1_1
        } else if code == 4 {
            FfdVersion::V1_2
        } else {
            FfdVersion::Unknown
        }
    }

    /// The code of the version.
    pub fn code(&self) -> (r: u8)
        ensures
            r == ffd_version_code(*self),
    {
        match self {
            FfdVersion::Unknown => 0,
            FfdVersion::V1 => 1,
            FfdVersion::V1_05 => 2,
            FfdVersion::V1_1 => 3,
            FfdVersion::V1_2 => 4,
        }
    }
}

/// How a text field reads: absent, its text, or an error for a value of another kind.
pub open spec fn read_text(o: Seq<(u16, FieldValue)>, tag: u16) -> Result<Option<Seq<char>>, FiscalError> {
    match first_value(o, tag) {
        None => Ok(None),
        Some(FieldValue::Text(s)) => Ok(Some(s)),
        Some(_) => Err(FiscalError::InvalidFormat),
    }
}

/// How a numeric field with values up to `max` reads.
pub open spec fn read_num(o: Seq<(u16, FieldValue)>, tag: u16, max: u64) -> Result<Option<u64>, FiscalError> {
    match first_value(o, tag) {
        None => Ok(None),
        Some(FieldValue::Num(n)) => if n <= max {
            Ok(Some(n))
        } else {
            Err(FiscalError::InvalidFormat)
        },
        Some(_) => Err(FiscalError::InvalidFormat),
    }
}

/// How a field of exactly `len` bytes reads.
pub open spec fn read_bytes(o: Seq<(u16, FieldValue)>, tag: u16, len: nat) -> Result<Option<Seq<u8>>, FiscalError> {
    match first_value(o, tag) {
        None => Ok(None),
        Some(FieldValue::Bytes(b)) => if b.len() == len {
            Ok(Some(b))
        } else {
            Err(FiscalError::InvalidFormat)
        },
        Some(_) => Err(FiscalError::InvalidFormat),
    }
}

/// How a date-and-time field reads.
pub open spec fn read_time(o: Seq<(u16, FieldValue)>, tag: u16) -> Result<Option<DateTime>, FiscalError> {
    match first_value(o, tag) {
        None => Ok(None),
        Some(FieldValue::Time(t)) => Ok(Some(t)),
        Some(_) => Err(FiscalError::InvalidFormat),
    }
}

/// How a decimal field reads: its digits and the number of them after the point.
pub open spec fn read_fixed(o: Seq<(u16, FieldValue)>, tag: u16) -> Result<Option<(u64, u8)>, FiscalError> {
    match first_value(o, tag) {
        None => Ok(None),
        Some(FieldValue::Fixed(d, s)) => Ok(Some((d, s))),
        Some(_) => Err(FiscalError::InvalidFormat),
    }
}

/// Every value in `vs` is a nested record.
pub open spec fn all_nested(vs: Seq<FieldValue>) -> bool {
    forall|i: int| 0 <= i < vs.len() ==> #[trigger] vs[i] is Nested
}

/// How a repeated field of nested records reads: all of them, in order.
pub open spec fn read_nested(o: Seq<(u16, FieldValue)>, tag: u16) -> Result<Seq<Seq<(u16, FieldValue)>>, FiscalError> {
    let vs = values_of(o, tag);
    if all_nested(vs) {
        Ok(Seq::new(vs.len(), |i: int| vs[i]->Nested_0))
    } else {
        Err(FiscalError::InvalidFormat)
    }
}

/// The view of a text field as read.
pub open spec fn text_result(r: Result<Option<String>, FiscalError>) -> Result<Option<Seq<char>>, FiscalError> {
    match r {
        Ok(Some(s)) => Ok(Some(s@)),
        Ok(None) => Ok(None),
        Err(e) => Err(e),
    }
}

/// The view of a byte field as read.
pub open spec fn bytes_result<const N: usize>(r: Result<Option<[u8; N]>, FiscalError>) -> Result<Option<Seq<u8>>, FiscalError> {
    match r {
        Ok(Some(b)) => Ok(Some(b@)),
        Ok(None) => Ok(None),
        Err(e) => Err(e),
    }
}

impl Object {
    /// Reads a text field.
    pub fn get_text(&self, tag: u16) -> (r: Result<Option<String>, FiscalError>)
        ensures
            text_result(r) == read_text(self@, tag),
    {
        match self.get(tag) {
            None => Ok(None),
            Some(Value::Text(s)) => Ok(Some(s)),
            Some(_) => Err(FiscalError::InvalidFormat),
        }
    }

    /// Reads a numeric field whose values go up to `max`.
    pub fn get_num(&self, tag: u16, max: u64) -> (r: Result<Option<u64>, FiscalError>)
        ensures
            r == read_num(self@, tag, max),
    {
        match self.get(tag) {
            None => Ok(None),
            Some(Value::Num(n)) => if n <= max {
                Ok(Some(n))
            } else {
                Err(FiscalError::InvalidFormat)
            },
            Some(_) => Err(FiscalError::InvalidFormat),
        }
    }

    /// Reads a 32-bit numeric field.
    pub fn get_u32(&self, tag: u16) -> (r: Result<Option<u32>, FiscalError>)
        ensures
            match r {
                Ok(Some(n)) => read_num(self@, tag, u32::MAX as u64) == Ok::<Option<u64>, FiscalError>(Some(n as u64)),
                Ok(None) => read_num(self@, tag, u32::MAX as u64) == Ok::<Option<u64>, FiscalError>(None),
                Err(e) => read_num(self@, tag, u32::MAX as u64) == Err::<Option<u64>, FiscalError>(e),
            },
    {
        match self.get_num(tag, u32::MAX as u64) {
            Ok(Some(n)) => Ok(Some(n as u32)),
            Ok(None) => Ok(None),
            Err(e) => Err(e),
        }
    }

    /// Reads a one-byte numeric field.
    pub fn get_u8(&self, tag: u16) -> (r: Result<Option<u8>, FiscalError>)
        ensures
            match r {
                Ok(Some(n)) => read_num(self@, tag, u8::MAX as u64) == Ok::<Option<u64>, FiscalError>(Some(n as u64)),
                Ok(None) => read_num(self@, tag, u8::MAX as u64) == Ok::<Option<u64>, FiscalError>(None),
                Err(e) => read_num(self@, tag, u8::MAX as u64) == Err::<Option<u64>, FiscalError>(e),
            },
    {
        match self.get_num(tag, u8::MAX as u64) {
            Ok(Some(n)) => Ok(Some(n as u8)),
            Ok(None) => Ok(None),
            Err(e) => Err(e),
        }
    }

    /// Reads a field of six bytes (a fiscal sign).
    pub fn get_bytes6(&self, tag: u16) -> (r: Result<Option<[u8; 6]>, FiscalError>)
        ensures
            bytes_result(r) == read_bytes(self@, tag, 6),
    {
        match self.get(tag) {
            None => Ok(None),
            Some(Value::Bytes(b)) => if b.len() == 6 {
                let a = [b[0], b[1], b[2], b[3], b[4], b[5]];
                assert(a@ =~= b@);
                Ok(Some(a))
            } else {
                Err(FiscalError::InvalidFormat)
            },
            Some(_) => Err(FiscalError::InvalidFormat),
        }
    }

    /// Reads a field of three bytes (a transport card code).
    pub fn get_bytes3(&self, tag: u16) -> (r: Result<Option<[u8; 3]>, FiscalError>)
        ensures
            bytes_result(r) == read_bytes(self@, tag, 3),
    {
        match self.get(tag) {
            None => Ok(None),
            Some(Value::Bytes(b)) => if b.len() == 3 {
                let a = [b[0], b[1], b[2]];
                assert(a@ =~= b@);
                Ok(Some(a))
            } else {
                Err(FiscalError::InvalidFormat)
            },
            Some(_) => Err(FiscalError::InvalidFormat),
        }
    }

    /// Reads a date-and-time field.
    pub fn get_time(&self, tag: u16) -> (r: Result<Option<DateTime>, FiscalError>)
        ensures
            r == read_time(self@, tag),
    {
        match self.get(tag) {
            None => Ok(None),
            Some(Value::Time(t)) => Ok(Some(t)),
            Some(_) => Err(FiscalError::InvalidFormat),
        }
    }

    /// Reads a decimal field.
    pub fn get_fixed(&self, tag: u16) -> (r: Result<Option<(u64, u8)>, FiscalError>)
        ensures
            r == read_fixed(self@, tag),
    {
        match self.get(tag) {
            None => Ok(None),
            Some(Value::Fixed(d, s)) => Ok(Some((d, s))),
            Some(_) => Err(FiscalError::InvalidFormat),
        }
    }

    /// Reads every nested record with `tag` (the items of a receipt, say).
    pub fn get_nested(&self, tag: u16) -> (r: Result<Vec<Object>, FiscalError>)
        ensures
            r is Ok ==> read_nested(self@, tag) is Ok,
            r is Ok ==> r->Ok_0@.len() == read_nested(self@, tag)->Ok_0.len(),
            r is Ok ==> forall|i: int| 0 <= i < r->Ok_0@.len() ==> (#[trigger] r->Ok_0@[i])@ == read_nested(self@, tag)->Ok_0[i],
            r is Err ==> read_nested(self@, tag) == Err::<Seq<Seq<(u16, FieldValue)>>, FiscalError>(r->Err_0),
    {
        let vals = self.get_all(tag);
        let ghost vs = values_of(self@, tag);
        let mut out: Vec<Object> = Vec::new();
        let mut rest = vals;
        let n = rest.len();
        assert(n == vs.len());
        let mut i: usize = 0;
        while rest.len() > 0
            invariant
                i + rest@.len() == vs.len(),
                forall|k: int| 0 <= k < rest@.len() ==> value_view(#[trigger] rest@[k]) == vs[i + k],
                out@.len() == i,
                forall|k: int| 0 <= k < i ==> #[trigger] vs[k] is Nested,
                forall|k: int| 0 <= k < i ==> (#[trigger] out@[k])@ == vs[k]->Nested_0,
                vs.len() <= usize::MAX,
                vs == values_of(self@, tag),
            decreases rest@.len(),
        {
            let ghost old_rest = rest@;
            let v = rest.remove(0);
            assert(value_view(v) == vs[i as int]);
            proof {
                assert forall|k: int| 0 <= k < rest@.len() implies value_view(#[trigger] rest@[k]) == vs[i + 1 + k] by {
                    assert(rest@[k] == old_rest[k + 1]);
                }
            }
            match v {
                Value::Nested(o) => {
                    assert(value_view(Value::Nested(o)) == FieldValue::Nested(o@));
                    assert(vs[i as int] is Nested);
                    assert(vs[i as int]->Nested_0 == o@);
                    let ghost old_out = out@;
                    out.push(o);
                    assert(forall|k: int| 0 <= k < i ==> out@[k] == old_out[k]);
                },
                _ => {
                    assert(!(vs[i as int] is Nested));
                    assert(!all_nested(vs));

                    return Err(FiscalError::InvalidFormat);
                },
            }
            i = i + 1;
        }
        assert(all_nested(vs));
        Ok(out)
    }

    /// Sets a text field.
    pub fn set_text(&mut self, tag: u16, s: String)
        ensures
            final(self)@ == set_value(old(self)@, tag, FieldValue::Text(s@)),
    {
        self.set(tag, Value::Text(s));
    }

    /// Sets a numeric field.
    pub fn set_num(&mut self, tag: u16, n: u64)
        ensures
            final(self)@ == set_value(old(self)@, tag, FieldValue::Num(n)),
    {
        self.set(tag, Value::Num(n));
    }

    /// Sets a byte field.
    pub fn set_bytes(&mut self, tag: u16, b: &[u8])
        ensures
            final(self)@ == set_value(old(self)@, tag, FieldValue::Bytes(b@)),
    {
        let v = crate::object::copy_bytes(b);
        self.set(tag, Value::Bytes(v));
    }

    /// Sets a date-and-time field.
    pub fn set_time(&mut self, tag: u16, t: DateTime)
        ensures
            final(self)@ == set_value(old(self)@, tag, FieldValue::Time(t)),
    {
        self.set(tag, Value::Time(t));
    }

    /// Adds another value to a repeated text field.
    pub fn push_text(&mut self, tag: u16, s: String)
        ensures
            final(self)@ == old(self)@.push((tag, FieldValue::Text(s@))),
    {
        self.push(tag, Value::Text(s));
    }
}

/// A payment type keeps its code: the type read from code `k`, for `k` from 1 to 4, has
/// code `k`, and no two types share a code.
pub proof fn lemma_payment_type_code_round_trip(k: u8, a: PaymentType, b: PaymentType)
    ensures
        1 <= k <= 4 ==> payment_type_code(payment_type_of(k)) == k,
        payment_type_code(a) == payment_type_code(b) ==> a == b,
{
}

} // verus!
