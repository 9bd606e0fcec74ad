//! The scan over the records of a chainstate store, one record at a time.
//!
//! The pipeline starts in `Init`, where it looks for the record that holds
//! the obfuscation key. With the key it is `Scanning`: every record of an
//! unspent output is unmasked and decoded, every other record is passed over.
//! It is `Done` when the caller ends the scan or when the scan fails.

use vstd::prelude::*;
use vstd::pervasive::unreached;
use crate::error::DecodeError;
use crate::key::classify;
use crate::key::key_kind;
use crate::key::KeyKind;
use crate::key::KeyKindModel;
use crate::obfuscation::deobfuscated;
use crate::obfuscation::stored_key;
use crate::obfuscation::Deobfuscator;
use crate::order::entry_precedes;
use crate::order::rank_entries;
use crate::order::Rank;
use crate::utxo::utxo_fields;
use crate::utxo::UtxoModel;
use crate::utxo::UtxoRecord;

verus! {

/// Where a scan stands.
#[derive(Clone, Copy, Debug, PartialEq, Eq, Structural)]
pub enum ScanState {
    /// No obfuscation key yet.
    Init,
    /// The key is known and records are being decoded.
    Scanning,
    /// The scan has ended or failed; no further record is taken.
    Done,
}

/// The totals of a scan.
#[derive(Clone, Copy, Debug, PartialEq, Eq, Structural)]
pub struct ScanReport {
    /// The number of records that the pipeline took.
    pub records_scanned: u64,
    /// The number of unspent outputs that it decoded.
    pub utxos_decoded: u64,
}

/// What the pipeline made of one record.
#[derive(Clone, Debug, PartialEq, Eq)]
pub enum Step {
    /// The record held the obfuscation key, which is now in use.
    KeyLoaded,
    /// The record is of no concern and was passed over.
    Skipped,
    /// The record held this unspent output.
    Decoded(UtxoRecord),
    /// The record could not be decoded; the scan goes on.
    Malformed(DecodeError),
    /// The scan failed on this record and is over.
    Failed(DecodeError),
    /// The scan was over before; the record was not looked at.
    Closed,
}

/// A `Step` over mathematical values.
pub enum StepModel {
    KeyLoaded,
    Skipped,
    Decoded(UtxoModel),
    Malformed(DecodeError),
    Failed(DecodeError),
    Closed,
}

impl View for Step {
    type V = StepModel;

    open spec fn view(&self) -> StepModel {
        match *self {
            Step::KeyLoaded => StepModel::KeyLoaded,
            Step::Skipped => StepModel::Skipped,
            Step::Decoded(utxo) => StepModel::Decoded(utxo@),
            Step::Malformed(e) => StepModel::Malformed(e),
            Step::Failed(e) => StepModel::Failed(e),
            Step::Closed => StepModel::Closed,
        }
    }
}

/// The state of a pipeline over mathematical values.
pub struct PipelineModel {
    /// Where the scan stands.
    pub state: ScanState,
    /// Whether a record that cannot be decoded, or a key out of order, ends
    /// the scan.
    pub strict: bool,
    /// The obfuscation key; empty until one is loaded.
    pub key: Seq<u8>,
    /// In strict mode, the transaction id, in storage order, and the output
    /// index of the unspent-output key seen last.
    pub last: Option<(Seq<u8>, u64)>,
    /// The number of records taken so far.
    pub scanned: nat,
    /// The number of unspent outputs decoded so far.
    pub decoded: nat,
    /// The error that ended the scan, if one did.
    pub failure: Option<DecodeError>,
}

impl PipelineModel {
    /// A pipeline before its first record.
    pub open spec fn initial(strict: bool) -> PipelineModel {
        PipelineModel {
            state: ScanState::Init,
            strict,
            key: Seq::empty(),
            last: None,
            scanned: 0,
            decoded: 0,
            failure: None,
        }
    }

    /// This pipeline after it has taken one more record.
    pub open spec fn counted(self) -> PipelineModel {
        PipelineModel { scanned: self.scanned + 1, ..self }
    }

    /// This pipeline after the scan has failed with `e`.
    pub open spec fn failed(self, e: DecodeError) -> (PipelineModel, StepModel) {
        (
            PipelineModel { state: ScanState::Done, failure: Some(e), ..self },
            StepModel::Failed(e),
        )
    }

    /// What a record that cannot be decoded does: in strict mode it ends the
    /// scan, otherwise it is reported and the scan goes on.
    pub open spec fn rejected(self, e: DecodeError) -> (PipelineModel, StepModel) {
        if self.strict {
            self.failed(e)
        } else {
            (self, StepModel::Malformed(e))
        }
    }

    /// What a pipeline without a key makes of the record `(key, value)`.
    ///
    /// The record with the obfuscation key starts the scan, if it holds a
    /// key. Unknown records are passed over. A record of an unspent output
    /// cannot be unmasked yet: in a store sorted by key the obfuscation key
    /// would have come before it, so the key is missing.
    pub open spec fn step_init(self, key: Seq<u8>, value: Seq<u8>) -> (PipelineModel, StepModel) {
        let taken = self.counted();
        match key_kind(key) {
            Ok(KeyKindModel::ObfuscationKeyRecord) => match stored_key(value) {
                Some(k) => (
                    PipelineModel { state: ScanState::Scanning, key: k, ..taken },
                    StepModel::KeyLoaded,
                ),
                None => taken.failed(DecodeError::MissingObfuscationKey),
            },
            Ok(KeyKindModel::Unknown) => (taken, StepModel::Skipped),
            _ => taken.failed(DecodeError::MissingObfuscationKey),
        }
    }

    /// What a scanning pipeline makes of the record `(key, value)`.
    ///
    /// Only records of unspent outputs are decoded. In strict mode the key
    /// must sort after the unspent-output key seen last, or the scan fails
    /// with `OutOfOrderKey` before the value is looked at.
    pub open spec fn step_scanning(self, key: Seq<u8>, value: Seq<u8>) -> (
        PipelineModel,
        StepModel,
    ) {
        let taken = self.counted();
        match key_kind(key) {
            Ok(KeyKindModel::UtxoEntry { txid, vout }) => {
                if self.strict && self.last.is_some() && !entry_precedes(
                    self.last.unwrap().0,
                    self.last.unwrap().1,
                    txid,
                    vout,
                ) {
                    taken.failed(DecodeError::OutOfOrderKey)
                } else {
                    let seen = PipelineModel {
                        last: if self.strict {
                            Some((txid, vout))
                        } else {
                            self.last
                        },
                        ..taken
                    };
                    match utxo_fields(txid, vout, deobfuscated(value, self.key)) {
                        Some(utxo) => (
                            PipelineModel { decoded: seen.decoded + 1, ..seen },
                            StepModel::Decoded(utxo),
                        ),
                        None => seen.rejected(DecodeError::MalformedUtxoValue),
                    }
                }
            },
            Ok(_) => (taken, StepModel::Skipped),
            Err(e) => taken.rejected(e),
        }
    }

    /// What the pipeline makes of the record `(key, value)`: its next state
    /// and what it tells the caller.
    pub open spec fn step(self, key: Seq<u8>, value: Seq<u8>) -> (PipelineModel, StepModel) {
        match self.state {
            ScanState::Init => self.step_init(key, value),
            ScanState::Scanning => self.step_scanning(key, value),
            ScanState::Done => (self, StepModel::Closed),
        }
    }

    /// The end of the scan: the pipeline is done, and it failed if no
    /// obfuscation key was ever found.
    pub open spec fn finished(self) -> PipelineModel {
        match self.state {
            ScanState::Init => PipelineModel {
                state: ScanState::Done,
                failure: Some(DecodeError::MissingObfuscationKey),
                ..self
            },
            ScanState::Scanning => PipelineModel { state: ScanState::Done, ..self },
            ScanState::Done => self,
        }
    }

    /// Whether `report` gives the totals of this pipeline.
    pub open spec fn reported_by(self, report: ScanReport) -> bool {
        report.records_scanned == self.scanned && report.utxos_decoded == self.decoded
    }

    /// Whether `summary` says how this pipeline's scan went: the error that
    /// ended it, or else its totals.
    pub open spec fn summed_up_by(self, summary: Result<ScanReport, DecodeError>) -> bool {
        match self.failure {
            Some(e) => summary == Err::<ScanReport, DecodeError>(e),
            None => summary.is_ok() && self.reported_by(summary.unwrap()),
        }
    }
}

/// The pipeline: the obfuscation key, the counters and, in strict mode, the
/// key seen last.
pub struct Pipeline {
    state: ScanState,
    strict: bool,
    mask: Option<Deobfuscator>,
    last: Option<([u8; 32], u64)>,
    scanned: u64,
    decoded: u64,
    failure: Option<DecodeError>,
}

impl View for Pipeline {
    type V = PipelineModel;

    closed spec fn view(&self) -> PipelineModel {
        PipelineModel {
            state: self.state,
            strict: self.strict,
            key: match self.mask {
                Some(mask) => mask@,
                None => Seq::empty(),
            },
            last: match self.last {
                Some((txid, vout)) => Some((txid@, vout)),
                None => None,
            },
            scanned: self.scanned as nat,
            decoded: self.decoded as nat,
            failure: self.failure,
        }
    }
}

impl Pipeline {
    #[verifier::type_invariant]
    spec fn well_formed(&self) -> bool {
        &&& self.state == ScanState::Scanning ==> self.mask.is_some()
        &&& self.decoded <= self.scanned
    }

    /// A pipeline before its first record.
    pub fn new(strict: bool) -> (pipeline: Pipeline)
        ensures
            pipeline@ == PipelineModel::initial(strict),
    {
        Pipeline {
            state: ScanState::Init,
            strict,
            mask: None,
            last: None,
            scanned: 0,
            decoded: 0,
            failure: None,
        }
    }

    /// Where the scan stands.
    pub fn state(&self) -> (state: ScanState)
        ensures
            state == self@.state,
    {
        self.state
    }

    /// Whether the pipeline is strict.
    pub fn is_strict(&self) -> (strict: bool)
        ensures
            strict == self@.strict,
    {
        self.strict
    }

    /// The number of records taken so far.
    pub fn records_scanned(&self) -> (count: u64)
        ensures
            count == self@.scanned,
    {
        self.scanned
    }

    /// The number of unspent outputs decoded so far, which is no more than
    /// the number of records taken.
    pub fn utxos_decoded(&self) -> (count: u64)
        ensures
            count == self@.decoded,
            count <= self@.scanned,
    {
        proof {
            use_type_invariant(self);
        }
        self.decoded
    }

    /// The error that ended the scan, if one did.
    pub fn failure(&self) -> (failure: Option<DecodeError>)
        ensures
            failure == self@.failure,
    {
        self.failure
    }

    /// The totals so far.
    pub fn report(&self) -> (report: ScanReport)
        ensures
            self@.reported_by(report),
    {
        ScanReport { records_scanned: self.scanned, utxos_decoded: self.decoded }
    }

    /// Ends the scan: the pipeline is done from here on. Returns the totals,
    /// or the error that ended the scan; a scan that never found the
    /// obfuscation key ends with `MissingObfuscationKey`.
    pub fn finish(&mut self) -> (summary: Result<ScanReport, DecodeError>)
        ensures
            final(self)@ == old(self)@.finished(),
            final(self)@.summed_up_by(summary),
    {
        proof {
            use_type_invariant(&*self);
        }
        match self.state {
            ScanState::Init => {
                self.state = ScanState::Done;
                self.failure = Some(DecodeError::MissingObfuscationKey);
            },
            ScanState::Scanning => {
                self.state = ScanState::Done;
            },
            ScanState::Done => {},
        }
        match self.failure {
            Some(e) => Err(e),
            None => Ok(self.report()),
        }
    }

    /// Ends the scan with the error `e`.
    fn fail(&mut self, e: DecodeError) -> (step: Step)
        ensures
            (final(self)@, step@) == old(self)@.failed(e),
    {
        proof {
            use_type_invariant(&*self);
        }
        self.state = ScanState::Done;
        self.failure = Some(e);
        Step::Failed(e)
    }

    /// Reports a record that could not be decoded, and ends the scan with it
    /// in strict mode.
    fn reject(&mut self, e: DecodeError) -> (step: Step)
        ensures
            (final(self)@, step@) == old(self)@.rejected(e),
    {
        if self.strict {
            self.fail(e)
        } else {
            Step::Malformed(e)
        }
    }

    /// Takes the next record of the store, in key order, and says what it
    /// held.
    pub fn step(&mut self, key: &[u8], value: &[u8]) -> (step: Step)
        requires
            old(self)@.scanned < u64::MAX,
        ensures
            (final(self)@, step@) == old(self)@.step(key@, value@),
    {
        proof {
            use_type_invariant(&*self);
        }
        match self.state {
            ScanState::Done => Step::Closed,
            ScanState::Init => {
                self.scanned = self.scanned + 1;
                match classify(key) {
                    Ok(KeyKind::ObfuscationKeyRecord) => match Deobfuscator::from_stored(value) {
                        Ok(mask) => {
                            self.mask = Some(mask);
                            self.state = ScanState::Scanning;
                            Step::KeyLoaded
                        },
                        Err(_) => self.fail(DecodeError::MissingObfuscationKey),
                    },
                    Ok(KeyKind::Unknown) => Step::Skipped,
                    _ => self.fail(DecodeError::MissingObfuscationKey),
                }
            },
            ScanState::Scanning => {
                self.scanned = self.scanned + 1;
                match classify(key) {
                    Ok(KeyKind::UtxoEntry { txid, vout }) => {
                        if self.strict {
                            let in_order = match &self.last {
                                Some((last_txid, last_vout)) => match rank_entries(
                                    last_txid,
                                    *last_vout,
                                    &txid,
                                    vout,
                                ) {
                                    Rank::Before => true,
                                    _ => false,
                                },
                                None => true,
                            };
                            if !in_order {
                                return self.fail(DecodeError::OutOfOrderKey);
                            }
                            self.last = Some((txid, vout));
                        }
                        let plain = match &self.mask {
                            Some(mask) => mask.deobfuscate(value),
                            None => unreached(),
                        };
                        match UtxoRecord::decode(&txid, vout, plain.as_slice()) {
                            Ok(utxo) => {
                                self.decoded = self.decoded + 1;
                                Step::Decoded(utxo)
                            },
                            Err(_) => self.reject(DecodeError::MalformedUtxoValue),
                        }
                    },
                    Ok(_) => Step::Skipped,
                    Err(e) => self.reject(e),
                }
            },
        }
    }
}

/// In a strict scan, an unspent-output key that does not sort after the one
/// taken just before it ends the scan: where the first of two such records
/// leaves the pipeline scanning, the second fails with `OutOfOrderKey`, and
/// either way the pipeline is done after the two.
pub proof fn lemma_strict_scan_rejects_disorder(
    start: PipelineModel,
    first_key: Seq<u8>,
    first_value: Seq<u8>,
    second_key: Seq<u8>,
    second_value: Seq<u8>,
)
    requires
        start.state == ScanState::Scanning,
        start.strict,
        key_kind(first_key) matches Ok(KeyKindModel::UtxoEntry { txid: first_txid, vout: first_vout })
            && key_kind(second_key) matches Ok(
            KeyKindModel::UtxoEntry { txid: second_txid, vout: second_vout },
        ) && !entry_precedes(first_txid, first_vout, second_txid, second_vout),
    ensures
        ({
            let between = start.step(first_key, first_value).0;
            let (end, told) = between.step(second_key, second_value);
            &&& end.state == ScanState::Done
            &&& end.failure.is_some()
            &&& between.state == ScanState::Scanning ==> told == StepModel::Failed(
                DecodeError::OutOfOrderKey,
            ) && end.failure == Some(DecodeError::OutOfOrderKey)
        }),
{
}

/// One record of the store as it comes: key and value, the value still
/// masked.
#[derive(Clone, Debug, PartialEq, Eq)]
pub struct RawRecord {
    pub key: Vec<u8>,
    pub value: Vec<u8>,
}

/// What a scan over a whole sequence of records gives.
#[derive(Debug, PartialEq, Eq)]
pub struct ScanOutput {
    /// For each record of an unspent output, in the order of the records,
    /// the output or the reason why it could not be decoded.
    pub items: Vec<Result<UtxoRecord, DecodeError>>,
    /// The totals, or the error that ended the scan.
    pub summary: Result<ScanReport, DecodeError>,
}

/// The pipeline `start` after it has taken `records` in order.
pub open spec fn scan_state(start: PipelineModel, records: Seq<RawRecord>) -> PipelineModel
    decreases records.len(),
{
    if records.len() == 0 {
        start
    } else {
        scan_state(start, records.drop_last()).step(records.last().key@, records.last().value@).0
    }
}

/// What the pipeline `start` hands on while it takes `records` in order: an
/// unspent output for each record that it decodes, an error for each record
/// that it reports and goes on from.
pub open spec fn scan_items(start: PipelineModel, records: Seq<RawRecord>) -> Seq<
    Result<UtxoModel, DecodeError>,
>
    decreases records.len(),
{
    if records.len() == 0 {
        Seq::empty()
    } else {
        let before = scan_items(start, records.drop_last());
        let at = scan_state(start, records.drop_last());
        match at.step(records.last().key@, records.last().value@).1 {
            StepModel::Decoded(utxo) => before.push(Ok(utxo)),
            StepModel::Malformed(e) => before.push(Err(e)),
            _ => before,
        }
    }
}

/// The items of a scan over mathematical values.
pub open spec fn item_models(items: Seq<Result<UtxoRecord, DecodeError>>) -> Seq<
    Result<UtxoModel, DecodeError>,
> {
    Seq::new(
        items.len(),
        |i: int|
            match items[i] {
                Ok(utxo) => Ok(utxo@),
                Err(e) => Err(e),
            },
    )
}

/// A pipeline that is done takes no further record: whatever follows
/// changes neither its state nor what it has handed on.
pub proof fn lemma_done_is_final(start: PipelineModel, records: Seq<RawRecord>, n: int)
    requires
        0 <= n <= records.len(),
        scan_state(start, records.take(n)).state == ScanState::Done,
    ensures
        scan_state(start, records) == scan_state(start, records.take(n)),
        scan_items(start, records) == scan_items(start, records.take(n)),
    decreases records.len(),
{
    if n == records.len() {
        assert(records.take(n) =~= records);
    } else {
        let shorter = records.drop_last();
        assert(shorter.take(n) =~= records.take(n));
        lemma_done_is_final(start, shorter, n);
    }
}

/// No step takes more than one record, and none is decoded that was not
/// taken.
pub proof fn lemma_scan_counts(start: PipelineModel, records: Seq<RawRecord>)
    requires
        start.decoded <= start.scanned,
    ensures
        scan_state(start, records).scanned <= start.scanned + records.len(),
        scan_state(start, records).decoded <= scan_state(start, records).scanned,
        scan_state(start, records).strict == start.strict,
    decreases records.len(),
{
    if records.len() > 0 {
        lemma_scan_counts(start, records.drop_last());
    }
}

/// Scans a whole sequence of records, given in key order, from the first
/// record to the last or to the record on which the scan fails.
pub fn decode_records(records: &[RawRecord], strict: bool) -> (output: ScanOutput)
    ensures
        item_models(output.items@) == scan_items(PipelineModel::initial(strict), records@),
        scan_state(PipelineModel::initial(strict), records@).finished().summed_up_by(
            output.summary,
        ),
{
    let ghost start = PipelineModel::initial(strict);
    let mut pipeline = Pipeline::new(strict);
    let mut items: Vec<Result<UtxoRecord, DecodeError>> = Vec::new();
    let mut i: usize = 0;
    assert(records@.take(0) =~= Seq::<RawRecord>::empty());
    assert(item_models(items@) =~= scan_items(start, records@.take(0)));
    while i < records.len()
        invariant
            start == PipelineModel::initial(strict),
            i <= records@.len() == records.len(),
            pipeline@ == scan_state(start, records@.take(i as int)),
            item_models(items@) == scan_items(start, records@.take(i as int)),
        decreases records@.len() - i,
    {
        proof {
            lemma_scan_counts(start, records@.take(i as int));
            assert(records@.take(i + 1).drop_last() =~= records@.take(i as int));
        }
        let ghost before = items@;
        let record = &records[i];
        let step = pipeline.step(record.key.as_slice(), record.value.as_slice());
        match step {
            Step::Decoded(utxo) => {
                items.push(Ok(utxo));
                assert(item_models(items@) =~= item_models(before).push(Ok(utxo@)));
            },
            Step::Malformed(e) => {
                items.push(Err(e));
                assert(item_models(items@) =~= item_models(before).push(Err(e)));
            },
            Step::Failed(_) => {
                proof {
                    lemma_done_is_final(start, records@, i + 1);
                }
                let summary = pipeline.finish();
                return ScanOutput { items, summary };
            },
            _ => {},
        }
        i = i + 1;
    }
    assert(records@.take(i as int) =~= records@);
    let summary = pipeline.finish();
    ScanOutput { items, summary }
}

} // verus!
