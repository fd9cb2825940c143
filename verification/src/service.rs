//! The fingerprint service as it faces the wire: what comes in and goes
//! out as plain values, and what is made of it.

use crate::buffer::ByteSink;
use crate::compact::{base58_encoding, Compact};
use crate::date_time::{is_supported_date, is_utc_instant, CalendarDate, Timestamp};
use crate::error::FingerprintError;
use crate::field::FieldElement;
use crate::hashing::Specs;
use crate::protocols::FingerprintProtocol;
use crate::transaction::{
    accepts, fingerprint_of_fields, iso4217_entry, Fingerprint, Money, RawTransaction,
    TransactionFingerprintData,
};
use vstd::prelude::*;
use vstd::utf8::{decode_utf8, encode_utf8, encode_utf8_decode_utf8, is_char_boundary};

verus! {

/// An instant on the wire.
#[derive(Clone, Copy, Debug, PartialEq, Eq, Structural)]
pub struct TimestampDto {
    pub seconds: u64,
    pub nanos: u32,
}

/// A day on the wire.
#[derive(Clone, Copy, Debug, PartialEq, Eq, Structural)]
pub struct DateDto {
    pub year: u32,
    pub month: u32,
    pub day: u32,
}

/// An amount on the wire; the currency is spelled `CURRENCY_` and the
/// alphabetic code.
#[derive(Debug)]
pub struct MoneyDto {
    pub currency: String,
    pub units: u64,
    pub atto: u64,
}

/// A transaction on the wire. Every part but the bank identifier may be
/// missing.
#[derive(Debug)]
pub struct TransactionDto {
    pub bic: String,
    pub amount: Option<MoneyDto>,
    pub date_time: Option<TimestampDto>,
    pub wwd: Option<DateDto>,
}

/// A fingerprint on the wire: its 32 bytes and its compact form.
#[derive(Debug)]
pub struct FingerprintDto {
    pub fingerprint: Vec<u8>,
    pub compact_fingerprint: String,
}

/// One transaction of a batch.
#[derive(Debug)]
pub struct BatchItem {
    pub item_id: u64,
    pub transaction_data: Option<TransactionDto>,
}

/// The fingerprint of one transaction of a batch.
#[derive(Debug)]
pub struct BatchItemResponse {
    pub item_id: u64,
    pub fingerprint: FingerprintDto,
}

/// The status codes that the service answers with.
#[derive(Clone, Copy, Debug, PartialEq, Eq, Structural)]
pub enum StatusCode {
    InvalidArgument,
    Aborted,
}

/// Why a request is refused.
#[derive(Clone, Copy, Debug, PartialEq, Eq, Structural)]
pub enum ServiceError {
    /// The request holds no transaction.
    MissingTransaction,
    /// The transaction holds no date and time.
    MissingDateTime,
    /// The transaction holds no world-wide date.
    MissingWwd,
    /// The transaction holds no amount.
    MissingAmount,
    /// The seconds or nanoseconds are out of range.
    InvalidTimestamp,
    /// The calendar has no such day.
    InvalidDate,
    /// The currency is not spelled `CURRENCY_` and a code.
    InvalidCurrency,
    /// The transaction was refused before anything was hashed.
    InvalidTransaction(FingerprintError),
    /// The computation of the fingerprint failed.
    Failed(FingerprintError),
}

impl ServiceError {
    /// The status code of the error: `Aborted` for a computation that
    /// failed, `InvalidArgument` for everything else.
    pub fn code(&self) -> (r: StatusCode)
        ensures
            r == (if *self is Failed {
                StatusCode::Aborted
            } else {
                StatusCode::InvalidArgument
            }),
    {
        match self {
            ServiceError::Failed(_) => StatusCode::Aborted,
            _ => StatusCode::InvalidArgument,
        }
    }

    /// The text of `message`.
    pub open spec fn text(self) -> Seq<char> {
        match self {
            ServiceError::MissingTransaction => "Transaction data missing"@,
            ServiceError::MissingDateTime => "Transaction date time information is missing"@,
            ServiceError::MissingWwd => "Transaction WWD is missing"@,
            ServiceError::MissingAmount => "Transaction amount is missing"@,
            ServiceError::InvalidTimestamp => "Timestamp is not valid"@,
            ServiceError::InvalidDate => "Invalid or out-of-range date"@,
            ServiceError::InvalidCurrency => "Provided invalid currency"@,
            ServiceError::InvalidTransaction(_) => "Failed to build transaction"@,
            ServiceError::Failed(_) => "Failed to complete fingerprint computation"@,
        }
    }

    /// A short description.
    pub fn message(&self) -> (r: &'static str)
        ensures
            r@ == self.text(),
    {
        match self {
            ServiceError::MissingTransaction => "Transaction data missing",
            ServiceError::MissingDateTime => "Transaction date time information is missing",
            ServiceError::MissingWwd => "Transaction WWD is missing",
            ServiceError::MissingAmount => "Transaction amount is missing",
            ServiceError::InvalidTimestamp => "Timestamp is not valid",
            ServiceError::InvalidDate => "Invalid or out-of-range date",
            ServiceError::InvalidCurrency => "Provided invalid currency",
            ServiceError::InvalidTransaction(_) => "Failed to build transaction",
            ServiceError::Failed(_) => "Failed to complete fingerprint computation",
        }
    }
}

/// Whether seconds and nanoseconds on the wire name an instant: the
/// seconds fit a signed 64-bit number, and the calendar in use has the
/// instant.
pub open spec fn is_instant(dto: TimestampDto) -> bool {
    dto.seconds <= i64::MAX && is_utc_instant(dto.seconds as int, dto.nanos as int)
}

/// The instant that a wire timestamp names.
pub fn timestamp_from_dto(dto: TimestampDto) -> (r: Result<Timestamp, ServiceError>)
    ensures
        r is Ok <==> is_instant(dto),
        r matches Ok(t) ==> t.seconds == dto.seconds && t.nanos == dto.nanos,
        r matches Err(e) ==> e == ServiceError::InvalidTimestamp,
{
    if dto.seconds > 0x7fff_ffff_ffff_ffff {
        return Err(ServiceError::InvalidTimestamp);
    }
    match Timestamp::from_timestamp(dto.seconds as i64, dto.nanos) {
        Some(t) => Ok(t),
        None => Err(ServiceError::InvalidTimestamp),
    }
}

/// The day that a wire date names.
pub fn date_from_dto(dto: DateDto) -> (r: Result<CalendarDate, ServiceError>)
    ensures
        r is Ok <==> is_supported_date(dto.year as int, dto.month as int, dto.day as int),
        r matches Ok(d) ==> d == CalendarDate::new_spec(
            dto.year as int,
            dto.month as int,
            dto.day as int,
        ) && d.spec_year() == dto.year && d.spec_month() == dto.month && d.spec_day() == dto.day,
        r matches Err(e) ==> e == ServiceError::InvalidDate,
{
    if dto.year > 0x7fff_ffff {
        return Err(ServiceError::InvalidDate);
    }
    match CalendarDate::from_ymd(dto.year as i32, dto.month, dto.day) {
        Some(d) => Ok(d),
        None => Err(ServiceError::InvalidDate),
    }
}

/// The bytes of `CURRENCY_`.
pub open spec fn currency_prefix() -> Seq<u8> {
    seq![0x43u8, 0x55u8, 0x52u8, 0x52u8, 0x45u8, 0x4Eu8, 0x43u8, 0x59u8, 0x5Fu8]
}

/// The bytes that follow `CURRENCY_` in the spelling of a currency on the
/// wire; nothing where the spelling does not start so.
pub open spec fn stripped_currency(text: Seq<char>) -> Option<Seq<u8>> {
    let bytes = encode_utf8(text);
    if bytes.len() >= 9 && bytes.subrange(0, 9) == currency_prefix() && is_char_boundary(
        bytes,
        9,
    ) {
        Some(bytes.subrange(9, bytes.len() as int))
    } else {
        None
    }
}

/// The code of the currency of a wire amount: the text that follows
/// `CURRENCY_`, and no text where the spelling does not start so.
pub open spec fn wire_code(dto: MoneyDto) -> Seq<char> {
    match stripped_currency(dto.currency@) {
        Some(bytes) => decode_utf8(bytes),
        None => Seq::empty(),
    }
}

/// The amount that a wire amount names: the currency loses its
/// `CURRENCY_`.
pub fn money_from_dto(dto: MoneyDto) -> (r: Result<Money, ServiceError>)
    ensures
        r is Ok <==> stripped_currency(dto.currency@) is Some,
        r matches Ok(m) ==> Some(encode_utf8(m.currency@)) == stripped_currency(dto.currency@)
            && m.currency@ == wire_code(dto) && m.amount_base == dto.units && m.amount_atto
            == dto.atto,
        r matches Err(e) ==> e == ServiceError::InvalidCurrency,
{
    let text = dto.currency.as_str();
    let bytes = text.as_bytes();
    if bytes.len() < 9 || !text.is_char_boundary(9) {
        return Err(ServiceError::InvalidCurrency);
    }
    if bytes[0] != 0x43 || bytes[1] != 0x55 || bytes[2] != 0x52 || bytes[3] != 0x52 || bytes[4]
        != 0x45 || bytes[5] != 0x4E || bytes[6] != 0x43 || bytes[7] != 0x59 || bytes[8] != 0x5F {
        assert(bytes@.subrange(0, 9) != currency_prefix()) by {
            let head = bytes@.subrange(0, 9);
            if head == currency_prefix() {
                assert(head[0] == 0x43 && head[1] == 0x55 && head[2] == 0x52 && head[3] == 0x52
                    && head[4] == 0x45 && head[5] == 0x4E && head[6] == 0x43 && head[7] == 0x59
                    && head[8] == 0x5F);
            }
        }
        return Err(ServiceError::InvalidCurrency);
    }
    assert(bytes@.subrange(0, 9) =~= currency_prefix());
    let (_, tail) = text.split_at(9);
    let currency = tail.to_owned();
    proof {
        encode_utf8_decode_utf8(currency@);
    }
    Ok(Money { amount_base: dto.units, amount_atto: dto.atto, currency })
}

/// The transaction that a wire transaction names. The parts are looked
/// for in the order date and time, world-wide date, amount, and read in
/// that order; the first that is missing or malformed decides the error.
pub fn raw_transaction_from_dto(dto: TransactionDto) -> (r: Result<RawTransaction, ServiceError>)
    ensures
        match r {
            Ok(tx) => {
                &&& dto.date_time matches Some(instant) && is_instant(instant) && tx.date_time.seconds
                    == instant.seconds && tx.date_time.nanos == instant.nanos
                &&& dto.wwd matches Some(day) && tx.wwd == CalendarDate::new_spec(
                    day.year as int,
                    day.month as int,
                    day.day as int,
                ) && tx.wwd.spec_year() == day.year && tx.wwd.spec_month() == day.month
                    && tx.wwd.spec_day() == day.day
                &&& dto.amount matches Some(money) && Some(encode_utf8(tx.amount.currency@))
                    == stripped_currency(money.currency@) && tx.amount.currency@ == wire_code(
                    money,
                ) && tx.amount.amount_base == money.units && tx.amount.amount_atto == money.atto
                &&& tx.bic@ == dto.bic@
            },
            Err(e) => refusal(dto) == Some(e),
        },
        r is Ok <==> refusal(dto) is None,
{
    let instant = match dto.date_time {
        Some(instant) => instant,
        None => {
            return Err(ServiceError::MissingDateTime);
        },
    };
    let day = match dto.wwd {
        Some(day) => day,
        None => {
            return Err(ServiceError::MissingWwd);
        },
    };
    let money = match dto.amount {
        Some(money) => money,
        None => {
            return Err(ServiceError::MissingAmount);
        },
    };
    let date_time = match timestamp_from_dto(instant) {
        Ok(t) => t,
        Err(e) => {
            return Err(e);
        },
    };
    let wwd = match date_from_dto(day) {
        Ok(d) => d,
        Err(e) => {
            return Err(e);
        },
    };
    let amount = match money_from_dto(money) {
        Ok(m) => m,
        Err(e) => {
            return Err(e);
        },
    };
    Ok(RawTransaction { bic: dto.bic, amount, date_time, wwd })
}

/// Why a wire transaction is refused, if it is.
pub open spec fn refusal(dto: TransactionDto) -> Option<ServiceError> {
    if dto.date_time is None {
        Some(ServiceError::MissingDateTime)
    } else if dto.wwd is None {
        Some(ServiceError::MissingWwd)
    } else if dto.amount is None {
        Some(ServiceError::MissingAmount)
    } else if !is_instant(dto.date_time->0) {
        Some(ServiceError::InvalidTimestamp)
    } else if !is_supported_date(
        dto.wwd->0.year as int,
        dto.wwd->0.month as int,
        dto.wwd->0.day as int,
    ) {
        Some(ServiceError::InvalidDate)
    } else if stripped_currency(dto.amount->0.currency@) is None {
        Some(ServiceError::InvalidCurrency)
    } else {
        None
    }
}

/// Whether the parts are those of the wire transaction: the bank
/// identifier, the amount, the instant and the day as they came, and the
/// number of the currency whose code follows `CURRENCY_`.
pub open spec fn parts_of(dto: TransactionDto, data: TransactionFingerprintData) -> bool {
    &&& dto.date_time matches Some(instant) && data.date_time_raw().date_time.seconds
        == instant.seconds && data.date_time_raw().date_time.nanos == instant.nanos
    &&& dto.wwd matches Some(day) && data.date_time_raw().wwd.spec_year() == day.year
        && data.date_time_raw().wwd.spec_month() == day.month
        && data.date_time_raw().wwd.spec_day() == day.day
    &&& dto.amount matches Some(money) && data.spec_amount() == (money.units, money.atto)
        && data.date_time_raw().amount == (money.units, money.atto) && exists|code: Seq<char>|
        Some(encode_utf8(code)) == stripped_currency(money.currency@) && #[trigger] iso4217_entry(
            code,
        ) == Some((data.spec_currency_code(), false))
    &&& data.bic_bytes() == encode_utf8(dto.bic@)
    &&& data.bic_bytes().len() == 8
    &&& 1 <= data.spec_currency_code() <= 999
}

/// A fingerprint as it goes out: its canonical bytes and their base58
/// text.
pub fn fingerprint_to_dto(value: &FieldElement) -> (r: FingerprintDto)
    ensures
        r.fingerprint@ == value.encoding(),
        r.compact_fingerprint@ == base58_encoding(value.encoding()),
{
    let bytes = value.to_bytes();
    let mut fingerprint: Vec<u8> = Vec::new();
    fingerprint.put(bytes.as_slice());
    assert(fingerprint@ =~= value.encoding());
    FingerprintDto { fingerprint, compact_fingerprint: value.compact() }
}

/// What a request for the fingerprint of a transaction under a protocol
/// is answered with, where the protocol decides what it returns: the
/// fingerprint, or the error. A request without a transaction is answered
/// with `MissingTransaction`, and a transaction that is refused with what
/// it is refused for. A transaction whose fields are not accepted is
/// invalid. From there on the fingerprint is computed, and whatever fails
/// then has the request fail: a date that cannot be compressed, and every
/// error of the protocol, whichever it is.
pub open spec fn decided_answer<P: FingerprintProtocol>(
    protocol: &P,
    request: Option<TransactionDto>,
) -> Option<Result<FieldElement, ServiceError>> {
    match request {
        None => Some(Err(ServiceError::MissingTransaction)),
        Some(dto) => match refusal(dto) {
            Some(e) => Some(Err(e)),
            None => {
                let instant = dto.date_time->0;
                let day = dto.wwd->0;
                let money = dto.amount->0;
                if !accepts(dto.bic@, wire_code(money)) {
                    Some(Err(ServiceError::InvalidTransaction(FingerprintError::InvalidInput)))
                } else {
                    match fingerprint_of_fields(
                        protocol,
                        dto.bic@,
                        wire_code(money),
                        (money.units, money.atto),
                        (Timestamp { seconds: instant.seconds as i64, nanos: instant.nanos }),
                        CalendarDate::new_spec(day.year as int, day.month as int, day.day as int),
                    ) {
                        Some(Ok(x)) => Some(Ok(x)),
                        Some(Err(e)) => Some(Err(ServiceError::Failed(e))),
                        None => None,
                    }
                }
            },
        },
    }
}

/// Whether `r` answers a request for the fingerprint of a transaction under
/// a protocol. Where the protocol decides, `r` is the decided answer: the
/// bytes of the fingerprint and their base58 text, or the error. Whatever
/// the protocol does, a fingerprint that is handed out is that of the
/// parts of the transaction, and a transaction is called invalid only
/// where its fields are not accepted.
pub open spec fn answers<P: FingerprintProtocol>(
    protocol: &P,
    request: Option<TransactionDto>,
    r: Result<FingerprintDto, ServiceError>,
) -> bool {
    &&& (decided_answer(protocol, request) matches Some(decided) ==> match decided {
        Ok(x) => r is Ok && r->Ok_0.fingerprint@ == x.encoding() && r->Ok_0.compact_fingerprint@
            == base58_encoding(x.encoding()),
        Err(e) => r == Err::<FingerprintDto, ServiceError>(e),
    })
    &&& (request is None ==> r == Err::<FingerprintDto, ServiceError>(
        ServiceError::MissingTransaction,
    ))
    &&& (request is Some && refusal(request->0) is Some ==> r == Err::<
        FingerprintDto,
        ServiceError,
    >(refusal(request->0)->0))
    &&& (r is Ok ==> exists|data: TransactionFingerprintData, x: FieldElement|
        #![trigger parts_of(request->0, data), x.encoding()]
        {
            &&& request is Some
            &&& parts_of(request->0, data)
            &&& r->Ok_0.fingerprint@ == x.encoding()
            &&& r->Ok_0.compact_fingerprint@ == base58_encoding(x.encoding())
            &&& (data.complete_fingerprint_under(protocol) is Some
                ==> data.complete_fingerprint_under(protocol)->0 == Ok::<
                FieldElement,
                FingerprintError,
            >(x))
            &&& exists|date_time: FieldElement|
                x.value() == #[trigger] data.fingerprint_for(date_time)
        })
    &&& (r is Err && r->Err_0 is InvalidTransaction ==> r->Err_0->InvalidTransaction_0
        == FingerprintError::InvalidInput && request is Some && refusal(request->0) is None
        && !accepts(request->0.bic@, wire_code(request->0.amount->0)))
}

/// Whether `r` answers an item of a batch: as a request for the item's
/// transaction is answered, and under the item's id.
pub open spec fn answers_item<P: FingerprintProtocol>(
    protocol: &P,
    item: BatchItem,
    r: Result<BatchItemResponse, ServiceError>,
) -> bool {
    match r {
        Ok(out) => out.item_id == item.item_id && answers(
            protocol,
            item.transaction_data,
            Ok::<FingerprintDto, ServiceError>(out.fingerprint),
        ),
        Err(e) => answers(protocol, item.transaction_data, Err::<FingerprintDto, ServiceError>(e)),
    }
}

/// The service: a protocol, and the requests it answers with it.
#[derive(Debug)]
pub struct FingerprintService<P: FingerprintProtocol> {
    protocol: P,
}

impl<P: FingerprintProtocol> FingerprintService<P> {
    pub closed spec fn protocol(&self) -> &P {
        &self.protocol
    }

    pub fn new(protocol: P) -> (r: FingerprintService<P>)
        ensures
            *r.protocol() == protocol,
    {
        FingerprintService { protocol }
    }

    /// The fingerprint of the transaction of a request. A request without
    /// a transaction, a transaction that lacks a part or has a malformed
    /// one, and a transaction whose fields are not accepted are invalid
    /// arguments; a computation that fails, for whatever reason, aborts
    /// the request.
    pub fn compute_single_fingerprint(&self, specs: &Specs, request: Option<TransactionDto>) -> (r:
        Result<FingerprintDto, ServiceError>)
        ensures
            answers(self.protocol(), request, r),
    {
        let dto = match request {
            Some(dto) => dto,
            None => {
                return Err(ServiceError::MissingTransaction);
            },
        };
        let raw = match raw_transaction_from_dto(dto) {
            Ok(raw) => raw,
            Err(e) => {
                return Err(e);
            },
        };
        let ghost code = raw.amount.currency@;
        let data = match TransactionFingerprintData::try_from(raw) {
            Ok(data) => data,
            Err(e) => {
                return Err(ServiceError::InvalidTransaction(e));
            },
        };
        match data.complete_fingerprint(specs, &self.protocol) {
            Ok(x) => {
                let out = fingerprint_to_dto(&x);
                proof {
                    assert(iso4217_entry(code) == Some((data.spec_currency_code(), false)));
                    assert(parts_of(request->0, data));
                }
                Ok(out)
            },
            Err(e) => Err(ServiceError::Failed(e)),
        }
    }

    /// The fingerprint of one transaction of a batch, under the item's id.
    pub fn compute_batch_item(&self, specs: &Specs, item: BatchItem) -> (r: Result<
        BatchItemResponse,
        ServiceError,
    >)
        ensures
            answers_item(self.protocol(), item, r),
    {
        let item_id = item.item_id;
        match self.compute_single_fingerprint(specs, item.transaction_data) {
            Ok(fingerprint) => Ok(BatchItemResponse { item_id, fingerprint }),
            Err(e) => Err(e),
        }
    }

    /// The fingerprints of the transactions of a batch, one answer for
    /// every item and in the order of the items.
    pub fn compute_batch_fingerprint(&self, specs: &Specs, batch: Vec<BatchItem>) -> (r: Vec<
        Result<BatchItemResponse, ServiceError>,
    >)
        ensures
            r.len() == batch.len(),
            forall|i: int|
                0 <= i < batch.len() ==> answers_item(self.protocol(), batch[i], #[trigger] r[i]),
    {
        let mut items = batch;
        let ghost all = items@;
        let n = items.len();
        let mut reversed: Vec<Result<BatchItemResponse, ServiceError>> = Vec::new();
        let mut k: usize = 0;
        while k < n
            invariant
                k <= n,
                all.len() == n,
                items@ == all.subrange(0, n - k),
                reversed.len() == k,
                forall|i: int|
                    0 <= i < k ==> answers_item(
                        self.protocol(),
                        all[n - 1 - i],
                        #[trigger] reversed[i],
                    ),
            decreases n - k,
        {
            match items.pop() {
                Some(item) => {
                    assert(item == all[n - 1 - k]);
                    assert(items@ =~= all.subrange(0, n - k - 1));
                    let answer = self.compute_batch_item(specs, item);
                    reversed.push(answer);
                },
                None => {
                    assert(false);
                },
            }
            k += 1;
        }
        let ghost collected = reversed@;
        let mut out: Vec<Result<BatchItemResponse, ServiceError>> = Vec::new();
        let mut k: usize = 0;
        while k < n
            invariant
                k <= n,
                collected.len() == n,
                reversed@ == collected.subrange(0, n - k),
                out.len() == k,
                forall|i: int| 0 <= i < k ==> (#[trigger] out[i]) == collected[n - 1 - i],
            decreases n - k,
        {
            match reversed.pop() {
                Some(answer) => {
                    assert(answer == collected[n - 1 - k]);
                    assert(reversed@ =~= collected.subrange(0, n - k - 1));
                    out.push(answer);
                },
                None => {
                    assert(false);
                },
            }
            k += 1;
        }
        out
    }
}

} // verus!
