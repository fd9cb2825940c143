//! A transaction, the parts of it that enter its fingerprint, and the
//! fingerprint.

use crate::buffer::{bytes_mut_freeze, bytes_mut_with_capacity, ByteSink};
use crate::components::{
    be_bytes_u16, be_bytes_u64, lemma_be_bytes_injective, Amount, AmountComponent,
    BankIdentifierComponent, CurrencyComponent, ScalarComponent,
};
use crate::date_time::{
    date_time_seed, CalendarDate, DateTimeComponent, DateTimeRaw, Timestamp,
};
use crate::error::FingerprintError;
use crate::field::FieldElement;
use crate::hashing::{
    buffer_digest, buffer_limbs, lemma_limbs_injective_on_64_bytes, HashSqueeze, Specs,
};
use crate::protocols::FingerprintProtocol;
use vstd::prelude::*;
use vstd::utf8::encode_utf8;

verus! {

/// The number and the kind of the currency with the given alphabetic code
/// in ISO 4217: its numeric code and whether it is a special one, such as
/// gold; nothing where the standard has no such code.
pub uninterp spec fn iso4217_entry(code: Seq<char>) -> Option<(u16, bool)>;

/// Whether ISO 4217 has a currency of the given number: some alphabetic
/// code is the code of a currency with that number.
pub open spec fn is_iso4217_number(number: u16) -> bool {
    exists|code: Seq<char>|
        (#[trigger] iso4217_entry(code)) matches Some(entry) && entry.0 == number
}

/// A currency of ISO 4217.
#[verifier::external_type_specification]
#[verifier::external_body]
pub struct ExCurrency(iso_currency::Currency);

/// An amount of money in a currency.
#[derive(Debug)]
pub struct Money {
    pub amount_base: u64,
    pub amount_atto: u64,
    pub currency: String,
}

/// A transaction as it comes in.
#[derive(Debug)]
pub struct RawTransaction {
    pub bic: String,
    pub amount: Money,
    pub date_time: Timestamp,
    pub wwd: CalendarDate,
}

/// The eight bytes that every fingerprint buffer starts with.
pub open spec fn prefix() -> Seq<u8> {
    seq![0xFFu8, 0xFEu8, 0xEDu8, 0xDDu8, 0xCCu8, 0x00u8, 0xDDu8, 0xEEu8]
}

/// The buffer that is hashed: the prefix, the bank identifier, the amount,
/// the currency and the encoding of the date-time fingerprint.
pub open spec fn fingerprint_buffer(
    bic: Seq<u8>,
    amount: Amount,
    currency: u16,
    date_time: Seq<u8>,
) -> Seq<u8> {
    prefix() + bic + (be_bytes_u64(amount.0) + be_bytes_u64(amount.1)) + be_bytes_u16(currency)
        + date_time
}

/// Two transactions whose buffers give the same limbs to the sponge have
/// the same bank identifier, the same amount and the same currency, and
/// their date-time fingerprints agree in their first 30 bytes. So a change
/// of any byte of these changes what is hashed. The last two bytes of the
/// date-time fingerprint lie behind the fourth limb and are not hashed.
pub proof fn lemma_limbs_tell_fields_apart(
    bic1: Seq<u8>,
    amount1: Amount,
    currency1: u16,
    date_time1: Seq<u8>,
    bic2: Seq<u8>,
    amount2: Amount,
    currency2: u16,
    date_time2: Seq<u8>,
)
    requires
        bic1.len() == 8,
        bic2.len() == 8,
        date_time1.len() == 32,
        date_time2.len() == 32,
        buffer_limbs(fingerprint_buffer(bic1, amount1, currency1, date_time1)) == buffer_limbs(
            fingerprint_buffer(bic2, amount2, currency2, date_time2),
        ),
    ensures
        bic1 == bic2,
        amount1 == amount2,
        currency1 == currency2,
        date_time1.subrange(0, 30) == date_time2.subrange(0, 30),
{
    let a = fingerprint_buffer(bic1, amount1, currency1, date_time1);
    let b = fingerprint_buffer(bic2, amount2, currency2, date_time2);
    lemma_limbs_injective_on_64_bytes(a, b);
    assert forall|k: int| 0 <= k < 64 implies a[k] == b[k] by {
        assert(a.subrange(0, 64)[k] == b.subrange(0, 64)[k]);
    }
    assert forall|k: int| 0 <= k < 8 implies bic1[k] == bic2[k] by {
        assert(a[8 + k] == b[8 + k]);
    }
    assert(bic1 =~= bic2);
    assert forall|k: int| 0 <= k < 8 implies be_bytes_u64(amount1.0)[k] == be_bytes_u64(
        amount2.0,
    )[k] by {
        assert(a[16 + k] == b[16 + k]);
    }
    lemma_be_bytes_injective(amount1.0, amount2.0);
    assert forall|k: int| 0 <= k < 8 implies be_bytes_u64(amount1.1)[k] == be_bytes_u64(
        amount2.1,
    )[k] by {
        assert(a[24 + k] == b[24 + k]);
    }
    lemma_be_bytes_injective(amount1.1, amount2.1);
    assert(a[32] == b[32] && a[33] == b[33]);
    assert(be_bytes_u16(currency1)[0] == be_bytes_u16(currency2)[0]);
    assert(be_bytes_u16(currency1)[1] == be_bytes_u16(currency2)[1]);
    assert forall|k: int| 0 <= k < 30 implies date_time1[k] == date_time2[k] by {
        assert(a[34 + k] == b[34 + k]);
    }
    assert(date_time1.subrange(0, 30) =~= date_time2.subrange(0, 30));
}

/// The numeric code that a currency enters a fingerprint with.
/// `InvalidInput` where the currency is unknown or special, or its number
/// is not between 1 and 999.
pub fn accepted_currency(entry: Option<(u16, bool)>) -> (r: Result<u16, FingerprintError>)
    ensures
        match r {
            Ok(n) => entry == Some((n, false)) && 1 <= n <= 999,
            Err(e) => e == FingerprintError::InvalidInput && !(entry matches Some((n, special))
                && !special && 1 <= n <= 999),
        },
{
    match entry {
        Some((n, special)) => {
            if special || n < 1 || n > 999 {
                Err(FingerprintError::InvalidInput)
            } else {
                Ok(n)
            }
        },
        None => Err(FingerprintError::InvalidInput),
    }
}

/// The parts of a transaction that enter its fingerprint.
#[derive(Debug)]
pub struct TransactionFingerprintData {
    bic: BankIdentifierComponent,
    amount: AmountComponent,
    currency: CurrencyComponent,
    date_time: DateTimeComponent,
}

impl TransactionFingerprintData {
    /// The bytes of the bank identifier.
    pub closed spec fn bic_bytes(&self) -> Seq<u8> {
        self.bic.image()
    }

    /// The bank identifier as text.
    pub closed spec fn bic_text(&self) -> Seq<char> {
        self.bic.text()
    }

    pub closed spec fn spec_amount(&self) -> Amount {
        self.amount.value()
    }

    pub closed spec fn spec_currency_code(&self) -> u16 {
        self.currency.value()
    }

    /// The date, the time and the amount.
    pub closed spec fn date_time_raw(&self) -> DateTimeRaw {
        self.date_time.value()
    }

    /// What the transaction's fingerprint is for a date-time fingerprint.
    pub open spec fn fingerprint_for(&self, date_time: FieldElement) -> nat {
        buffer_digest(
            fingerprint_buffer(
                self.bic_bytes(),
                self.spec_amount(),
                self.spec_currency_code(),
                date_time.encoding(),
            ),
        )
    }

    /// What the transaction's fingerprint is under a protocol, where the
    /// protocol and the seed alone decide what the protocol returns.
    pub open spec fn complete_fingerprint_under<P: FingerprintProtocol>(
        &self,
        protocol: &P,
    ) -> Option<Result<FieldElement, FingerprintError>> {
        match date_time_seed(self.date_time_raw()) {
            None => Some(Err(FingerprintError::InvalidDate)),
            Some(seed) => match protocol.outcome(FieldElement::from_value(seed)) {
                Some(Ok(date_time)) => Some(
                    Ok(FieldElement::from_value(self.fingerprint_for(date_time))),
                ),
                Some(Err(e)) => Some(Err(e)),
                None => None,
            },
        }
    }

    /// The number of bytes of the buffer that is hashed.
    pub fn fingerprint_size() -> (n: usize)
        ensures
            n == 66,
    {
        8 + BankIdentifierComponent::size() + AmountComponent::size() + CurrencyComponent::size()
            + DateTimeComponent::size()
    }

    pub fn new(
        bic: BankIdentifierComponent,
        amount: AmountComponent,
        currency: CurrencyComponent,
        date_time: DateTimeComponent,
    ) -> (r: Self)
        ensures
            r.bic_bytes() == bic.image(),
            r.bic_text() == bic.text(),
            r.spec_amount() == amount.value(),
            r.spec_currency_code() == currency.value(),
            r.date_time_raw() == date_time.value(),
    {
        Self { bic, amount, currency, date_time }
    }

    pub fn bic(&self) -> (r: &str)
        ensures
            r@ == self.bic_text(),
    {
        self.bic.raw()
    }

    pub fn amount(&self) -> (r: (u64, u64))
        ensures
            r == self.spec_amount(),
    {
        *self.amount.raw()
    }

    pub fn currency_code(&self) -> (r: u16)
        ensures
            r == self.spec_currency_code(),
    {
        *self.currency.raw()
    }

    /// The currency with the number of the transaction's currency: there
    /// is one exactly where ISO 4217 has a currency of that number. The
    /// parts of an accepted transaction always have one.
    pub fn currency(&self) -> (r: Option<iso_currency::Currency>)
        ensures
            r is Some <==> is_iso4217_number(self.spec_currency_code()),
    {
        currency_from_numeric(self.currency_code())
    }

    /// The instant of the transaction.
    pub fn date_time(&self) -> (r: &Timestamp)
        ensures
            *r == self.date_time_raw().date_time,
    {
        &self.date_time.raw().date_time
    }

    pub fn date_time_component(&self) -> (r: &DateTimeComponent)
        ensures
            r.value() == self.date_time_raw(),
    {
        &self.date_time
    }

    /// The parts of a transaction. `InvalidInput` where the currency is
    /// unknown or special or its number is not between 1 and 999, or the
    /// bank identifier does not have eight bytes.
    pub fn try_from(tx: RawTransaction) -> (r: Result<Self, FingerprintError>)
        ensures
            match r {
                Ok(data) => {
                    &&& iso4217_entry(tx.amount.currency@) == Some(
                        (data.spec_currency_code(), false),
                    )
                    &&& 1 <= data.spec_currency_code() <= 999
                    &&& data.bic_bytes() == encode_utf8(tx.bic@)
                    &&& data.bic_bytes().len() == 8
                    &&& data.bic_text() == tx.bic@
                    &&& data.spec_amount() == (tx.amount.amount_base, tx.amount.amount_atto)
                    &&& data.date_time_raw() == DateTimeRaw::new_spec(
                        tx.date_time,
                        tx.wwd,
                        (tx.amount.amount_base, tx.amount.amount_atto),
                    )
                },
                Err(e) => e == FingerprintError::InvalidInput && !(iso4217_entry(
                    tx.amount.currency@,
                ) matches Some((n, special)) && !special && 1 <= n <= 999 && encode_utf8(
                    tx.bic@,
                ).len() == 8),
            },
    {
        let entry = currency_entry(tx.amount.currency.as_str());
        let code = match accepted_currency(entry) {
            Ok(code) => code,
            Err(e) => {
                return Err(e);
            },
        };
        let bic = match BankIdentifierComponent::new(tx.bic) {
            Ok(bic) => bic,
            Err(e) => {
                return Err(e);
            },
        };
        let units: Amount = (tx.amount.amount_base, tx.amount.amount_atto);
        let amount = AmountComponent::new(units);
        let currency = CurrencyComponent::new(code);
        let date_time = DateTimeComponent::new(DateTimeRaw::new(tx.date_time, tx.wwd, units));
        Ok(Self { bic, amount, currency, date_time })
    }
}

/// Values that have a fingerprint.
pub trait Fingerprint {
    /// The fingerprint of the value under a protocol.
    fn complete_fingerprint<P: FingerprintProtocol>(&self, specs: &Specs, via_protocol: &P) -> (r:
        Result<FieldElement, FingerprintError>);

    /// What the protocol makes of the value's date, time and amount.
    fn datetime_fingerprint<P: FingerprintProtocol>(&self, specs: &Specs, via_protocol: &P) -> (r:
        Result<FieldElement, FingerprintError>);

    /// The fingerprint of the value for a date-time fingerprint.
    fn fingerprint(&self, specs: &Specs, date_time: FieldElement) -> (r: Result<
        FieldElement,
        FingerprintError,
    >);
}

impl Fingerprint for TransactionFingerprintData {
    fn complete_fingerprint<P: FingerprintProtocol>(&self, specs: &Specs, via_protocol: &P) -> (r:
        Result<FieldElement, FingerprintError>)
        ensures
            self.complete_fingerprint_under(via_protocol) matches Some(decided) ==> r == decided,
            date_time_seed(self.date_time_raw()) is None ==> r == Err::<
                FieldElement,
                FingerprintError,
            >(FingerprintError::InvalidDate),
            r matches Ok(x) ==> exists|date_time: FieldElement|
                x.value() == #[trigger] self.fingerprint_for(date_time),
    {
        let date_time = match self.datetime_fingerprint(specs, via_protocol) {
            Ok(date_time) => date_time,
            Err(e) => {
                return Err(e);
            },
        };
        self.fingerprint(specs, date_time)
    }

    fn datetime_fingerprint<P: FingerprintProtocol>(&self, specs: &Specs, via_protocol: &P) -> (r:
        Result<FieldElement, FingerprintError>)
        ensures
            match date_time_seed(self.date_time_raw()) {
                None => r == Err::<FieldElement, FingerprintError>(FingerprintError::InvalidDate),
                Some(seed) => via_protocol.outcome(FieldElement::from_value(seed)) matches Some(
                    decided,
                ) ==> r == decided,
            },
    {
        let squeezed = match self.date_time.squeeze(specs) {
            Ok(x) => x,
            Err(e) => {
                return Err(e);
            },
        };
        proof {
            FieldElement::lemma_from_value(squeezed);
        }
        via_protocol.process(specs, &squeezed)
    }

    fn fingerprint(&self, specs: &Specs, date_time: FieldElement) -> (r: Result<
        FieldElement,
        FingerprintError,
    >)
        ensures
            r matches Ok(x) && x.value() == self.fingerprint_for(date_time) && x
                == FieldElement::from_value(self.fingerprint_for(date_time)),
    {
        let mut buffer = bytes_mut_with_capacity(Self::fingerprint_size());
        let marker: [u8; 8] = [0xFF, 0xFE, 0xED, 0xDD, 0xCC, 0x00, 0xDD, 0xEE];
        assert(marker@ =~= prefix());
        buffer.put(marker.as_slice());
        assert(buffer.written() =~= prefix());
        let scalar = ScalarComponent::new(date_time);
        let _ = self.bic.serialize(&mut buffer);
        let _ = self.amount.serialize(&mut buffer);
        let _ = self.currency.serialize(&mut buffer);
        let _ = scalar.serialize(&mut buffer);
        assert(buffer.written() =~= fingerprint_buffer(
            self.bic_bytes(),
            self.spec_amount(),
            self.spec_currency_code(),
            date_time.encoding(),
        ));
        let frozen = bytes_mut_freeze(buffer);
        let r = frozen.squeeze(specs);
        proof {
            if let Ok(x) = r {
                FieldElement::lemma_from_value(x);
            }
        }
        r
    }
}

/// Whether a transaction is accepted: its currency is a known one that is
/// not special and has a number between 1 and 999, and its bank identifier
/// has eight bytes.
pub open spec fn is_accepted(tx: RawTransaction) -> bool {
    &&& iso4217_entry(tx.amount.currency@) matches Some((number, special))
    &&& !special
    &&& 1 <= number <= 999
    &&& encode_utf8(tx.bic@).len() == 8
}

/// Whether the fields of a transaction are accepted: the code is that of
/// a known currency that is not special and has a number between 1 and
/// 999, and the bank identifier has eight bytes.
pub open spec fn accepts(bic: Seq<char>, code: Seq<char>) -> bool {
    &&& iso4217_entry(code) matches Some((number, special))
    &&& !special
    &&& 1 <= number <= 999
    &&& encode_utf8(bic).len() == 8
}

/// The number of the currency with the given code; zero where there is
/// none.
pub open spec fn currency_number(code: Seq<char>) -> u16 {
    match iso4217_entry(code) {
        Some((number, _)) => number,
        None => 0,
    }
}

/// What the fingerprint of a transaction with the given fields is under a
/// protocol, where the protocol and the seed alone decide what the
/// protocol returns; nothing where more than these has a say.
/// `InvalidInput` for fields that are not accepted, `InvalidDate` where
/// the date, the time and the amount are compressed into nothing, an
/// error of the protocol as it is, and otherwise the hash of the buffer
/// with what the protocol returns for the date-time fingerprint.
pub open spec fn fingerprint_of_fields<P: FingerprintProtocol>(
    protocol: &P,
    bic: Seq<char>,
    code: Seq<char>,
    amount: Amount,
    date_time: Timestamp,
    wwd: CalendarDate,
) -> Option<Result<FieldElement, FingerprintError>> {
    if !accepts(bic, code) {
        Some(Err(FingerprintError::InvalidInput))
    } else {
        match date_time_seed(DateTimeRaw::new_spec(date_time, wwd, amount)) {
            None => Some(Err(FingerprintError::InvalidDate)),
            Some(seed) => match protocol.outcome(FieldElement::from_value(seed)) {
                Some(Ok(squeezed)) => Some(
                    Ok(
                        FieldElement::from_value(
                            buffer_digest(
                                fingerprint_buffer(
                                    encode_utf8(bic),
                                    amount,
                                    currency_number(code),
                                    squeezed.encoding(),
                                ),
                            ),
                        ),
                    ),
                ),
                Some(Err(e)) => Some(Err(e)),
                None => None,
            },
        }
    }
}

/// What the fingerprint of a transaction is under a protocol, where the
/// protocol decides.
pub open spec fn fingerprint_under<P: FingerprintProtocol>(
    protocol: &P,
    tx: RawTransaction,
) -> Option<Result<FieldElement, FingerprintError>> {
    fingerprint_of_fields(
        protocol,
        tx.bic@,
        tx.amount.currency@,
        (tx.amount.amount_base, tx.amount.amount_atto),
        tx.date_time,
        tx.wwd,
    )
}

/// Whether the parts are those of the transaction.
pub open spec fn is_data_of(tx: RawTransaction, data: TransactionFingerprintData) -> bool {
    &&& iso4217_entry(tx.amount.currency@) == Some((data.spec_currency_code(), false))
    &&& data.bic_bytes() == encode_utf8(tx.bic@)
    &&& data.spec_amount() == (tx.amount.amount_base, tx.amount.amount_atto)
    &&& data.date_time_raw() == DateTimeRaw::new_spec(
        tx.date_time,
        tx.wwd,
        (tx.amount.amount_base, tx.amount.amount_atto),
    )
}

/// The fingerprint of a transaction under a protocol. `InvalidInput` for a
/// transaction that is not accepted, `InvalidDate` for one whose instant
/// or day is not after the epoch; otherwise the protocol is run on what
/// the date, the time and the amount are compressed into, and what it
/// returns is hashed with the other parts of the transaction.
pub fn fingerprint<P: FingerprintProtocol>(specs: &Specs, tx: RawTransaction, protocol: &P) -> (r:
    Result<FieldElement, FingerprintError>)
    ensures
        fingerprint_under(protocol, tx) matches Some(decided) ==> r == decided,
        !is_accepted(tx) ==> r == Err::<FieldElement, FingerprintError>(
            FingerprintError::InvalidInput,
        ),
        is_accepted(tx) ==> exists|data: TransactionFingerprintData|
            {
                &&& #[trigger] is_data_of(tx, data)
                &&& (date_time_seed(data.date_time_raw()) is None ==> r == Err::<
                    FieldElement,
                    FingerprintError,
                >(FingerprintError::InvalidDate))
                &&& (data.complete_fingerprint_under(protocol) is Some ==> r
                    == data.complete_fingerprint_under(protocol)->0)
                &&& (r is Ok ==> exists|date_time: FieldElement|
                    r->Ok_0.value() == #[trigger] data.fingerprint_for(date_time))
            },
{
    let data = match TransactionFingerprintData::try_from(tx) {
        Ok(data) => data,
        Err(e) => {
            return Err(e);
        },
    };
    let r = data.complete_fingerprint(specs, protocol);
    assert(is_data_of(tx, data));
    r
}

/// `Currency::from_code`, then `numeric` and `is_special`: the number and
/// the kind of the currency with that code, and nothing where there is
/// none.
#[verifier::external_body]
fn currency_entry(code: &str) -> (r: Option<(u16, bool)>)
    ensures
        r == iso4217_entry(code@),
{
    match iso_currency::Currency::from_code(code) {
        Some(currency) => Some((currency.numeric(), currency.is_special())),
        None => None,
    }
}

/// `Currency::from_numeric`: the currency of that number, and nothing
/// where no currency has it. `from_numeric`, `from_code` and `numeric`
/// are written out of one table, in which no code and no number stands
/// twice; so a number has a currency exactly where some code is the code
/// of a currency with that number.
#[verifier::external_body]
fn currency_from_numeric(code: u16) -> (r: Option<iso_currency::Currency>)
    ensures
        r is Some <==> is_iso4217_number(code),
{
    iso_currency::Currency::from_numeric(code)
}

} // verus!
