//! Melting: rendering a binary save as the plain text the game writes.
//!
//! Reading binary tokens and writing text are done by the caller; this
//! module decides, token by token, what is written and how strings are
//! quoted.
use crate::date::Eu4Date;
use crate::errors::Eu4ErrorKind;
use crate::strings::{bytes_end_with, seq_ends_with, str_eq};
use vstd::string::StringSliceAdditionalSpecFns;
use std::collections::HashSet;
use vstd::prelude::*;

verus! {

broadcast use vstd::std_specs::hash::group_hash_axioms;

/// How the next string scalars are quoted.
#[derive(Debug, Clone, Copy, PartialEq, Eq, Structural)]
pub enum QuoteKind {
    /// Regular quoting rules
    Inactive,
    /// Unquote scalar and containers
    UnquoteAll,
    /// Unquote only a scalar value
    UnquoteScalar,
    /// Quote only a scalar value
    QuoteScalar,
    /// Quote object keys
    ForceQuote,
}

/// The quoting mode that a container opened after `queued` was queued
/// keeps for its scalars.
pub open spec fn container_kind(queued: Option<QuoteKind>) -> QuoteKind {
    match queued {
        Some(QuoteKind::ForceQuote) => QuoteKind::ForceQuote,
        Some(QuoteKind::UnquoteAll) => QuoteKind::UnquoteAll,
        _ => QuoteKind::Inactive,
    }
}

/// The quoting mode of the next scalar: the queued mode if any, else the
/// mode of the innermost open container, else the regular rules.
pub open spec fn scalar_kind(queued: Option<QuoteKind>, depth: Seq<QuoteKind>) -> QuoteKind {
    match queued {
        Some(x) => x,
        None => if depth.len() > 0 {
            depth.last()
        } else {
            QuoteKind::Inactive
        },
    }
}

/// Tracks the quoting mode queued by the last key and the mode of each open
/// container.
#[derive(Debug)]
pub struct Quoter {
    queued: Option<QuoteKind>,
    depth: Vec<QuoteKind>,
}

impl Quoter {
    pub closed spec fn spec_queued(&self) -> Option<QuoteKind> {
        self.queued
    }

    pub closed spec fn spec_depth(&self) -> Seq<QuoteKind> {
        self.depth@
    }

    /// A quoter with nothing queued and no open container.
    pub fn new() -> (q: Quoter)
        ensures
            q.spec_queued() is None,
            q.spec_depth() == Seq::<QuoteKind>::empty(),
    {
        Quoter { queued: None, depth: Vec::new() }
    }

    /// A container opens: it keeps the queued mode when that mode applies
    /// to containers, and the queue is emptied.
    pub fn push(&mut self)
        ensures
            final(self).spec_queued() is None,
            final(self).spec_depth() == old(self).spec_depth().push(
                container_kind(old(self).spec_queued()),
            ),
    {
        let next = match self.queued.take() {
            Some(QuoteKind::ForceQuote) => QuoteKind::ForceQuote,
            Some(QuoteKind::UnquoteAll) => QuoteKind::UnquoteAll,
            _ => QuoteKind::Inactive,
        };
        self.depth.push(next);
    }

    /// A container closes.
    pub fn pop(&mut self)
        ensures
            final(self).spec_queued() == old(self).spec_queued(),
            final(self).spec_depth() == (if old(self).spec_depth().len() > 0 {
                old(self).spec_depth().drop_last()
            } else {
                old(self).spec_depth()
            }),
    {
        let _ = self.depth.pop();
    }

    /// The quoting mode of a string scalar; the queue is emptied.
    pub fn take_scalar(&mut self) -> (k: QuoteKind)
        ensures
            k == scalar_kind(old(self).spec_queued(), old(self).spec_depth()),
            final(self).spec_queued() is None,
            final(self).spec_depth() == old(self).spec_depth(),
    {
        match self.queued.take() {
            Some(x) => x,
            None => {
                let n = self.depth.len();
                if n > 0 {
                    self.depth[n - 1]
                } else {
                    QuoteKind::Inactive
                }
            },
        }
    }

    /// Queues a quoting mode for what follows.
    pub fn queue(&mut self, mode: QuoteKind)
        ensures
            final(self).spec_queued() == Some(mode),
            final(self).spec_depth() == old(self).spec_depth(),
    {
        self.queued = Some(mode);
    }

    /// Drops any queued quoting mode.
    pub fn clear_queued(&mut self)
        ensures
            final(self).spec_queued() is None,
            final(self).spec_depth() == old(self).spec_depth(),
    {
        self.queued = None;
    }
}

impl Default for Quoter {
    fn default() -> (q: Quoter)
        ensures
            q.spec_queued() is None,
            q.spec_depth() == Seq::<QuoteKind>::empty(),
    {
        Quoter::new()
    }
}

/// Opening a container and closing it again leaves the open containers as
/// they were, with nothing queued.
pub proof fn law_push_pop_restores(before: Seq<QuoteKind>, queued: Option<QuoteKind>)
    ensures
        before.push(container_kind(queued)).drop_last() == before,
{
    assert(before.push(container_kind(queued)).drop_last() =~= before);
}

/// A queued mode decides the quoting of the next scalar, whatever the open
/// containers.
pub proof fn law_queued_mode_wins(mode: QuoteKind, depth: Seq<QuoteKind>)
    ensures
        scalar_kind(Some(mode), depth) == mode,
{
}

/// How to handle a binary token with no known name.
#[derive(Debug, Clone, Copy, PartialEq, Eq, Structural)]
pub enum FailedResolveStrategy {
    /// Stop parsing and return an error
    Error,
    /// Stringify the token as hexadecimal
    Stringify,
    /// Ignore the token
    Ignore,
}

/// Options that control melting.
#[derive(Debug, Clone, Copy, PartialEq, Eq, Structural)]
pub struct MeltOptions {
    skip_checksum: bool,
    verbatim: bool,
    on_failed_resolve: FailedResolveStrategy,
    check_header: bool,
}

impl MeltOptions {
    pub closed spec fn spec_skip_checksum(self) -> bool {
        self.skip_checksum
    }

    pub closed spec fn spec_verbatim(self) -> bool {
        self.verbatim
    }

    pub closed spec fn spec_on_failed_resolve(self) -> FailedResolveStrategy {
        self.on_failed_resolve
    }

    pub closed spec fn spec_check_header(self) -> bool {
        self.check_header
    }

    /// The four settings of the options.
    pub open spec fn settings(self) -> (bool, bool, FailedResolveStrategy, bool) {
        (
            self.spec_skip_checksum(),
            self.spec_verbatim(),
            self.spec_on_failed_resolve(),
            self.spec_check_header(),
        )
    }

    /// Options are determined by their settings.
    pub proof fn lemma_settings_injective(self, other: MeltOptions)
        requires
            self.settings() == other.settings(),
        ensures
            self == other,
    {
    }

    /// Keep the checksum, drop `is_ironman`, ignore unknown tokens, and
    /// expect the binary header.
    pub fn new() -> (o: MeltOptions)
        ensures
            o.settings() == (false, false, FailedResolveStrategy::Ignore, true),
    {
        MeltOptions {
            skip_checksum: false,
            verbatim: false,
            on_failed_resolve: FailedResolveStrategy::Ignore,
            check_header: true,
        }
    }

    pub fn skip_checksum(self, skip_checksum: bool) -> (o: MeltOptions)
        ensures
            o.settings() == (skip_checksum, self.settings().1, self.settings().2, self.settings().3),
    {
        MeltOptions { skip_checksum, ..self }
    }

    pub fn verbatim(self, verbatim: bool) -> (o: MeltOptions)
        ensures
            o.settings() == (self.settings().0, verbatim, self.settings().2, self.settings().3),
    {
        MeltOptions { verbatim, ..self }
    }

    pub fn check_header(self, check_header: bool) -> (o: MeltOptions)
        ensures
            o.settings() == (self.settings().0, self.settings().1, self.settings().2, check_header),
    {
        MeltOptions { check_header, ..self }
    }

    pub fn on_failed_resolve(self, on_failed_resolve: FailedResolveStrategy) -> (o: MeltOptions)
        ensures
            o.settings() == (self.settings().0, self.settings().1, on_failed_resolve, self.settings().3),
    {
        MeltOptions { on_failed_resolve, ..self }
    }

    /// Whether the checksum is left out of the output.
    pub fn is_skip_checksum(&self) -> (b: bool)
        ensures
            b == self.spec_skip_checksum(),
    {
        self.skip_checksum
    }

    /// Whether `is_ironman` is kept in the output.
    pub fn is_verbatim(&self) -> (b: bool)
        ensures
            b == self.spec_verbatim(),
    {
        self.verbatim
    }

    /// What is done with tokens with no known name.
    pub fn failed_resolve_strategy(&self) -> (s: FailedResolveStrategy)
        ensures
            s == self.spec_on_failed_resolve(),
    {
        self.on_failed_resolve
    }

    /// Whether the input must start with the binary header.
    pub fn is_check_header(&self) -> (b: bool)
        ensures
            b == self.spec_check_header(),
    {
        self.check_header
    }
}

impl Default for MeltOptions {
    fn default() -> (o: MeltOptions)
        ensures
            o.settings() == (false, false, FailedResolveStrategy::Ignore, true),
    {
        MeltOptions::new()
    }
}

/// Setting two different options gives the same options in either order.
pub proof fn law_settings_commute(o: MeltOptions, skip: bool, verbatim: bool)
    ensures
        ({
            let a = (skip, o.settings().1, o.settings().2, o.settings().3);
            let b = (a.0, verbatim, a.2, a.3);
            let c = (o.settings().0, verbatim, o.settings().2, o.settings().3);
            let d = (skip, c.1, c.2, c.3);
            b == d
        }),
{
}

/// The outcome of melting: the tokens that had no known name.
#[derive(Debug)]
pub struct MeltedDocument {
    unknown_tokens: HashSet<u16>,
}

impl MeltedDocument {
    pub closed spec fn spec_unknown(&self) -> Set<u16> {
        self.unknown_tokens@
    }

    pub fn new() -> (d: MeltedDocument)
        ensures
            d.spec_unknown() == Set::<u16>::empty(),
    {
        MeltedDocument { unknown_tokens: HashSet::new() }
    }

    /// The list of unknown tokens that the provided resolver accumulated
    pub fn unknown_tokens(&self) -> (s: &HashSet<u16>)
        ensures
            s@ == self.spec_unknown(),
    {
        &self.unknown_tokens
    }
}

impl Default for MeltedDocument {
    fn default() -> (d: MeltedDocument)
        ensures
            d.spec_unknown() == Set::<u16>::empty(),
    {
        MeltedDocument::new()
    }
}

/// Binary input as the melter sees it. String and number payloads stay
/// with the caller; a field is given with the name its resolver found, if
/// any.
#[derive(Debug, Clone, Copy)]
pub enum MeltToken<'a> {
    Open,
    Close,
    Equal,
    U32,
    U64,
    I32(i32),
    Bool,
    Quoted,
    Unquoted,
    F32,
    F64,
    Rgb,
    I64,
    Id(u16, Option<&'a str>),
}

/// What the caller writes, or does with the input, for one token.
#[derive(Debug, Clone, Copy, PartialEq, Eq, Structural)]
pub enum MeltAction {
    /// Open a container.
    WriteArrayStart,
    /// Close the innermost container.
    WriteEnd,
    /// Write `=`.
    WriteEqual,
    /// Write the token's integer or boolean as is.
    WriteScalar,
    /// Write the date in the game's format (year.month.day).
    WriteDate(Eu4Date),
    /// Write the token's string without quotes.
    WriteUnquoted,
    /// Write the token's string in quotes.
    WriteQuoted,
    /// Write the token's fixed point number with this many decimals.
    WriteNumber(u8),
    /// Write the field's name without quotes.
    WriteField,
    /// Write `__unknown_0x` and the token in lower case hexadecimal.
    WriteUnknown(u16),
    /// Write nothing and skip the value that follows (after an optional
    /// `=`), with every container nested in it.
    SkipValue,
}

/// Keys whose values are written without quotes, containers included.
pub open spec fn unquote_all_key(id: Seq<char>) -> bool {
    ||| id == "friend"@
    ||| id == "production_leader_tag"@
    ||| id == "dynamic_countries"@
    ||| id == "electors"@
    ||| id == "cores"@
    ||| id == "named_unrest"@
    ||| id == "claims"@
    ||| id == "country_of_origin"@
    ||| id == "granted_privileges"@
    ||| id == "attackers"@
    ||| id == "defenders"@
    ||| id == "persistent_attackers"@
    ||| id == "persistent_defenders"@
    ||| id == "mission_slot"@
    ||| id == "votes"@
    ||| id == "ruler_flags"@
    ||| id == "neighbours"@
    ||| id == "home_neighbours"@
    ||| id == "core_neighbours"@
    ||| id == "call_to_arms_friends"@
    ||| id == "allies"@
    ||| id == "extended_allies"@
    ||| id == "trade_embargoed_by"@
    ||| id == "trade_embargoes"@
    ||| id == "transfer_trade_power_from"@
    ||| id == "friend_tags"@
    ||| id == "hidden_flags"@
    ||| id == "members"@
    ||| id == "colony_claim"@
    ||| id == "harsh"@
    ||| id == "concilatory"@
    ||| id == "current_at_war_with"@
    ||| id == "current_war_allies"@
    ||| id == "participating_countries"@
    ||| id == "subjects"@
    ||| id == "support_independence"@
    ||| id == "transfer_trade_power_to"@
    ||| id == "guarantees"@
    ||| id == "warnings"@
    ||| id == "flags"@
}

/// Keys at the second level of nesting whose values are written without
/// quotes.
pub open spec fn unquote_all_nested_key(id: Seq<char>) -> bool {
    id == "discovered_by"@ || id == "tribal_owner"@ || id == "active_disaster"@
}

/// Keys whose values are always quoted.
pub open spec fn force_quote_key(id: Seq<char>) -> bool {
    id == "culture_group"@ || id == "saved_names"@ || id == "tech_level_dates"@ || id
        == "incident_variables"@
}

/// The quoting mode queued after the key `id` is written at writer depth
/// `depth`; the last rule that applies wins.
pub open spec fn queued_after_key(id: Seq<char>, depth: int) -> Option<QuoteKind> {
    if depth == 4 && id == "leader"@ {
        Some(QuoteKind::UnquoteScalar)
    } else if force_quote_key(id) {
        Some(QuoteKind::ForceQuote)
    } else if id == "subjects"@ {
        Some(QuoteKind::QuoteScalar)
    } else if unquote_all_key(id) || (depth == 2 && unquote_all_nested_key(id)) {
        Some(QuoteKind::UnquoteAll)
    } else {
        None
    }
}

/// Keys whose integer value is never taken for a date.
pub open spec fn known_number_key(id: &str) -> bool {
    id@ == "random"@ || seq_ends_with(id.spec_bytes(), "seed".spec_bytes()) || id@ == "id"@
}

/// Keys whose integer value is a date.
pub open spec fn known_date_key(id: Seq<char>) -> bool {
    id == "date_built"@
}

/// Keys that are left out of the output with their value.
pub open spec fn skipped_key(id: Seq<char>, options: MeltOptions) -> bool {
    (id == "checksum"@ && options.spec_skip_checksum()) || (id == "is_ironman"@
        && !options.spec_verbatim())
}

/// The mathematical state of a melt.
pub struct MeltView {
    pub queued: Option<QuoteKind>,
    pub depth: Seq<QuoteKind>,
    pub known_number: bool,
    pub known_date: bool,
    pub long_format: bool,
    pub unknown: Set<u16>,
}

/// The state of a melt in progress.
#[derive(Debug)]
pub struct MeltState {
    options: MeltOptions,
    quoter: Quoter,
    known_number: bool,
    known_date: bool,
    long_format: bool,
    document: MeltedDocument,
}

fn unquote_all_name(id: &str) -> (b: bool)
    ensures
        b == unquote_all_key(id@),
{
    str_eq(id, "friend") || str_eq(id, "production_leader_tag") || str_eq(
        id,
        "dynamic_countries",
    ) || str_eq(id, "electors") || str_eq(id, "cores") || str_eq(id, "named_unrest") || str_eq(
        id,
        "claims",
    ) || str_eq(id, "country_of_origin") || str_eq(id, "granted_privileges") || str_eq(
        id,
        "attackers",
    ) || str_eq(id, "defenders") || str_eq(id, "persistent_attackers") || str_eq(
        id,
        "persistent_defenders",
    ) || str_eq(id, "mission_slot") || str_eq(id, "votes") || str_eq(id, "ruler_flags")
        || str_eq(id, "neighbours") || str_eq(id, "home_neighbours") || str_eq(
        id,
        "core_neighbours",
    ) || str_eq(id, "call_to_arms_friends") || str_eq(id, "allies") || str_eq(
        id,
        "extended_allies",
    ) || str_eq(id, "trade_embargoed_by") || str_eq(id, "trade_embargoes") || str_eq(
        id,
        "transfer_trade_power_from",
    ) || str_eq(id, "friend_tags") || str_eq(id, "hidden_flags") || str_eq(id, "members")
        || str_eq(id, "colony_claim") || str_eq(id, "harsh") || str_eq(id, "concilatory")
        || str_eq(id, "current_at_war_with") || str_eq(id, "current_war_allies") || str_eq(
        id,
        "participating_countries",
    ) || str_eq(id, "subjects") || str_eq(id, "support_independence") || str_eq(
        id,
        "transfer_trade_power_to",
    ) || str_eq(id, "guarantees") || str_eq(id, "warnings") || str_eq(id, "flags")
}

fn queued_after_name(id: &str, depth: usize) -> (q: Option<QuoteKind>)
    ensures
        q == queued_after_key(id@, depth as int),
{
    if depth == 4 && str_eq(id, "leader") {
        Some(QuoteKind::UnquoteScalar)
    } else if str_eq(id, "culture_group") || str_eq(id, "saved_names") || str_eq(
        id,
        "tech_level_dates",
    ) || str_eq(id, "incident_variables") {
        Some(QuoteKind::ForceQuote)
    } else if str_eq(id, "subjects") {
        Some(QuoteKind::QuoteScalar)
    } else if unquote_all_name(id) || (depth == 2 && (str_eq(id, "discovered_by") || str_eq(
        id,
        "tribal_owner",
    ) || str_eq(id, "active_disaster"))) {
        Some(QuoteKind::UnquoteAll)
    } else {
        None
    }
}

/// What one step of a melt decides: from the state `s`, with the options
/// `o`, the token `token` and what the writer reports, the result `r` and
/// the state `t` after it.
pub open spec fn step_relation(
    o: MeltOptions,
    s: MeltView,
    token: MeltToken,
    writer_depth: usize,
    expecting_key: bool,
    r: Result<MeltAction, Eu4ErrorKind>,
    t: MeltView,
) -> bool {
    let same = t == s;
    match token {
        MeltToken::Open => r == Ok::<MeltAction, Eu4ErrorKind>(
            MeltAction::WriteArrayStart,
        ) && t == MeltView {
            queued: None,
            depth: s.depth.push(container_kind(s.queued)),
            ..s
        },
        MeltToken::Close => r == Ok::<MeltAction, Eu4ErrorKind>(MeltAction::WriteEnd)
            && t == MeltView {
            depth: if s.depth.len() > 0 {
                s.depth.drop_last()
            } else {
                s.depth
            },
            ..s
        },
        MeltToken::Equal => r == Ok::<MeltAction, Eu4ErrorKind>(MeltAction::WriteEqual)
            && same,
        MeltToken::U32 | MeltToken::U64 | MeltToken::Bool | MeltToken::Rgb
        | MeltToken::I64 => r == Ok::<MeltAction, Eu4ErrorKind>(
            MeltAction::WriteScalar,
        ) && same,
        MeltToken::Unquoted => r == Ok::<MeltAction, Eu4ErrorKind>(
            MeltAction::WriteUnquoted,
        ) && same,
        MeltToken::Quoted => {
            let k = scalar_kind(s.queued, s.depth);
            let quoted = k == QuoteKind::ForceQuote || k == QuoteKind::QuoteScalar || (k
                == QuoteKind::Inactive && !expecting_key);
            r == Ok::<MeltAction, Eu4ErrorKind>(
                if quoted {
                    MeltAction::WriteQuoted
                } else {
                    MeltAction::WriteUnquoted
                },
            ) && t == MeltView { queued: None, ..s }
        },
        MeltToken::F32 => r == Ok::<MeltAction, Eu4ErrorKind>(
            MeltAction::WriteNumber(
                if s.long_format {
                    6
                } else {
                    3
                },
            ),
        ) && same,
        MeltToken::F64 => r == Ok::<MeltAction, Eu4ErrorKind>(MeltAction::WriteNumber(5))
            && same,
        MeltToken::I32(x) => if s.known_number {
            r == Ok::<MeltAction, Eu4ErrorKind>(MeltAction::WriteScalar) && t
                == MeltView { known_number: false, ..s }
        } else if s.known_date {
            match crate::date::binary_date(x as int) {
                Some(d) => (r matches Ok(MeltAction::WriteDate(w)) && w.ymd() == d)
                    && t == MeltView { known_date: false, ..s },
                None => if o.spec_on_failed_resolve() != FailedResolveStrategy::Error {
                    r == Ok::<MeltAction, Eu4ErrorKind>(MeltAction::WriteScalar) && t
                        == MeltView { known_date: false, ..s }
                } else {
                    r matches Err(Eu4ErrorKind::InvalidDate(y)) && y == x
                },
            }
        } else {
            match crate::date::binary_date_heuristic(x as int) {
                Some(d) => (r matches Ok(MeltAction::WriteDate(w)) && w.ymd() == d)
                    && same,
                None => r == Ok::<MeltAction, Eu4ErrorKind>(MeltAction::WriteScalar)
                    && same,
            }
        },
        MeltToken::Id(x, Some(id)) => if skipped_key(id@, o) {
            r == Ok::<MeltAction, Eu4ErrorKind>(MeltAction::SkipValue) && same
        } else {
            r == Ok::<MeltAction, Eu4ErrorKind>(MeltAction::WriteField) && t
                == MeltView {
                queued: queued_after_key(id@, writer_depth as int),
                known_number: known_number_key(id),
                known_date: known_date_key(id@),
                long_format: s.long_format || (writer_depth == 0 && id@ == "ai"@),
                ..s
            }
        },
        MeltToken::Id(x, None) => match o.spec_on_failed_resolve() {
            FailedResolveStrategy::Error => r matches Err(
                Eu4ErrorKind::UnknownToken { token_id },
            ) && token_id == x,
            FailedResolveStrategy::Ignore if expecting_key => r == Ok::<
                MeltAction,
                Eu4ErrorKind,
            >(MeltAction::SkipValue) && same,
            _ => r == Ok::<MeltAction, Eu4ErrorKind>(MeltAction::WriteUnknown(x)) && t
                == MeltView { unknown: s.unknown.insert(x), ..s },
        },
    }
}

impl MeltState {
    pub closed spec fn spec_options(&self) -> MeltOptions {
        self.options
    }

    pub closed spec fn view(&self) -> MeltView {
        MeltView {
            queued: self.quoter.spec_queued(),
            depth: self.quoter.spec_depth(),
            known_number: self.known_number,
            known_date: self.known_date,
            long_format: self.long_format,
            unknown: self.document.spec_unknown(),
        }
    }

    /// The state at the start of a document.
    pub fn new(options: MeltOptions) -> (s: MeltState)
        ensures
            s.spec_options() == options,
            s.view() == (MeltView {
                queued: None,
                depth: Seq::empty(),
                known_number: false,
                known_date: false,
                long_format: false,
                unknown: Set::empty(),
            }),
    {
        MeltState {
            options,
            quoter: Quoter::new(),
            known_number: false,
            known_date: false,
            long_format: false,
            document: MeltedDocument::new(),
        }
    }

    /// The state at the start of a further document whose unknown tokens
    /// are gathered with those of `document`, as the entries of a zip
    /// archive are melted one after the other.
    pub fn continuing(options: MeltOptions, document: MeltedDocument) -> (s: MeltState)
        ensures
            s.spec_options() == options,
            s.view() == (MeltView {
                queued: None,
                depth: Seq::empty(),
                known_number: false,
                known_date: false,
                long_format: false,
                unknown: document.spec_unknown(),
            }),
    {
        MeltState {
            options,
            quoter: Quoter::new(),
            known_number: false,
            known_date: false,
            long_format: false,
            document,
        }
    }

    /// The options of this melt.
    pub fn options(&self) -> (o: MeltOptions)
        ensures
            o == self.spec_options(),
    {
        self.options
    }

    /// The outcome of the melt so far.
    pub fn into_document(self) -> (d: MeltedDocument)
        ensures
            d.spec_unknown() == self.view().unknown,
    {
        self.document
    }

    /// Decides what to do with the next binary token. `writer_depth` and
    /// `expecting_key` describe the text written so far.
    pub fn step(&mut self, token: MeltToken, writer_depth: usize, expecting_key: bool) -> (r:
        Result<MeltAction, Eu4ErrorKind>)
        ensures
            final(self).spec_options() == old(self).spec_options(),
            old(self).view().unknown.subset_of(final(self).view().unknown),
            step_relation(
                old(self).spec_options(),
                old(self).view(),
                token,
                writer_depth,
                expecting_key,
                r,
                final(self).view(),
            ),
    {
        match token {
            MeltToken::Open => {
                self.quoter.push();
                Ok(MeltAction::WriteArrayStart)
            },
            MeltToken::Close => {
                self.quoter.pop();
                Ok(MeltAction::WriteEnd)
            },
            MeltToken::Equal => Ok(MeltAction::WriteEqual),
            MeltToken::U32 | MeltToken::U64 | MeltToken::Bool | MeltToken::Rgb | MeltToken::I64 => {
                Ok(MeltAction::WriteScalar)
            },
            MeltToken::Unquoted => Ok(MeltAction::WriteUnquoted),
            MeltToken::Quoted => {
                let k = self.quoter.take_scalar();
                match k {
                    QuoteKind::Inactive => if expecting_key {
                        Ok(MeltAction::WriteUnquoted)
                    } else {
                        Ok(MeltAction::WriteQuoted)
                    },
                    QuoteKind::ForceQuote => Ok(MeltAction::WriteQuoted),
                    QuoteKind::UnquoteAll => Ok(MeltAction::WriteUnquoted),
                    QuoteKind::UnquoteScalar => Ok(MeltAction::WriteUnquoted),
                    QuoteKind::QuoteScalar => Ok(MeltAction::WriteQuoted),
                }
            },
            MeltToken::F32 => if self.long_format {
                Ok(MeltAction::WriteNumber(6))
            } else {
                Ok(MeltAction::WriteNumber(3))
            },
            MeltToken::F64 => Ok(MeltAction::WriteNumber(5)),
            MeltToken::I32(x) => {
                if self.known_number {
                    self.known_number = false;
                    Ok(MeltAction::WriteScalar)
                } else if self.known_date {
                    match Eu4Date::from_binary(x) {
                        Some(date) => {
                            self.known_date = false;
                            Ok(MeltAction::WriteDate(date))
                        },
                        None => {
                            if self.options.on_failed_resolve != FailedResolveStrategy::Error {
                                self.known_date = false;
                                Ok(MeltAction::WriteScalar)
                            } else {
                                Err(Eu4ErrorKind::InvalidDate(x))
                            }
                        },
                    }
                } else {
                    match Eu4Date::from_binary_heuristic(x) {
                        Some(date) => Ok(MeltAction::WriteDate(date)),
                        None => Ok(MeltAction::WriteScalar),
                    }
                }
            },
            MeltToken::Id(x, Some(id)) => {
                if (str_eq(id, "checksum") && self.options.skip_checksum) || (str_eq(
                    id,
                    "is_ironman",
                ) && !self.options.verbatim) {
                    return Ok(MeltAction::SkipValue);
                }
                self.quoter.clear_queued();
                self.known_number = str_eq(id, "random") || bytes_end_with(
                    id.as_bytes(),
                    "seed".as_bytes(),
                ) || str_eq(id, "id");
                self.known_date = str_eq(id, "date_built");
                match queued_after_name(id, writer_depth) {
                    Some(mode) => self.quoter.queue(mode),
                    None => {},
                }
                if writer_depth == 0 && str_eq(id, "ai") {
                    self.long_format = true;
                }
                Ok(MeltAction::WriteField)
            },
            MeltToken::Id(x, None) => match self.options.on_failed_resolve {
                FailedResolveStrategy::Error => Err(Eu4ErrorKind::UnknownToken { token_id: x }),
                FailedResolveStrategy::Ignore if expecting_key => Ok(MeltAction::SkipValue),
                _ => {
                    self.document.unknown_tokens.insert(x);
                    Ok(MeltAction::WriteUnknown(x))
                },
            },
        }
    }
}

/// Whether melting must first check for the binary header, and that the
/// header read is `EU4bin`.
pub fn header_accepted(options: &MeltOptions, header: &[u8]) -> (ok: bool)
    ensures
        ok == (!options.spec_check_header() || header@ == crate::file::bin_header()),
{
    if !options.check_header {
        return true;
    }
    crate::file::is_bin_header(header)
}

/// What to do with the next token while skipping a value: a `=` right after
/// the key is read past, a container is skipped whole, and any other token
/// is the value itself, already read.
#[derive(Debug, Clone, Copy, PartialEq, Eq, Structural)]
pub enum SkipNext {
    ReadAnother,
    SkipContainer,
    Done,
}

/// One step of a melt as its caller sees it: the token, the writer's depth,
/// whether the writer expects a key, and the step's result.
pub type MeltStepRecord<'a> = (MeltToken<'a>, usize, bool, Result<MeltAction, Eu4ErrorKind>);

/// Whether `views` are the states that a melt with options `o` goes
/// through when it takes the steps `steps` in turn, each of them
/// successfully.
pub open spec fn successful_run(o: MeltOptions, views: Seq<MeltView>, steps: Seq<MeltStepRecord>) -> bool {
    &&& views.len() == steps.len() + 1
    &&& forall|i: int|
        0 <= i < steps.len() ==> #[trigger] step_relation(
            o,
            views[i],
            steps[i].0,
            steps[i].1,
            steps[i].2,
            steps[i].3,
            views[i + 1],
        )
    &&& forall|i: int| 0 <= i < steps.len() ==> (#[trigger] steps[i]).3 is Ok
}

/// Whether the step wrote the placeholder of the unresolved token `x`.
pub open spec fn writes_placeholder(step: MeltStepRecord, x: u16) -> bool {
    &&& step.0 matches MeltToken::Id(y, None) && y == x
    &&& step.3 == Ok::<MeltAction, Eu4ErrorKind>(MeltAction::WriteUnknown(x))
}

proof fn lemma_unknown_step(
    o: MeltOptions,
    s: MeltView,
    step: MeltStepRecord,
    t: MeltView,
    x: u16,
)
    requires
        step_relation(o, s, step.0, step.1, step.2, step.3, t),
        step.3 is Ok,
    ensures
        t.unknown.contains(x) <==> s.unknown.contains(x) || writes_placeholder(step, x),
        o.spec_on_failed_resolve() == FailedResolveStrategy::Error ==> !writes_placeholder(step, x),
{
}

/// Over a whole successful melt, the unknown tokens gathered are those
/// gathered before it and those whose placeholder a step wrote; when an
/// unresolved token is an error, none is gathered.
pub proof fn law_unknown_tokens_of_a_melt(o: MeltOptions, views: Seq<MeltView>, steps: Seq<MeltStepRecord>)
    requires
        successful_run(o, views, steps),
    ensures
        forall|x: u16|
            #[trigger] views.last().unknown.contains(x) <==> views[0].unknown.contains(x) || exists|i: int|
                0 <= i < steps.len() && writes_placeholder(#[trigger] steps[i], x),
        o.spec_on_failed_resolve() == FailedResolveStrategy::Error ==> views.last().unknown
            == views[0].unknown,
    decreases steps.len(),
{
    if steps.len() > 0 {
        let n = steps.len() - 1;
        let pv = views.take(n + 1);
        let ps = steps.take(n);
        assert forall|i: int| 0 <= i < ps.len() implies #[trigger] step_relation(
            o,
            pv[i],
            ps[i].0,
            ps[i].1,
            ps[i].2,
            ps[i].3,
            pv[i + 1],
        ) by {
            assert(step_relation(o, views[i], steps[i].0, steps[i].1, steps[i].2, steps[i].3, views[i + 1]));
        }
        assert forall|i: int| 0 <= i < ps.len() implies (#[trigger] ps[i]).3 is Ok by {
            assert(steps[i].3 is Ok);
        }
        law_unknown_tokens_of_a_melt(o, pv, ps);
        assert(step_relation(o, views[n], steps[n].0, steps[n].1, steps[n].2, steps[n].3, views[n + 1]));
        assert(steps[n].3 is Ok);
        assert forall|x: u16|
            #[trigger] views.last().unknown.contains(x) <==> views[0].unknown.contains(x) || exists|i: int|
                0 <= i < steps.len() && writes_placeholder(#[trigger] steps[i], x) by {
            lemma_unknown_step(o, views[n], steps[n], views[n + 1], x);
            assert(pv.last().unknown.contains(x) <==> pv[0].unknown.contains(x) || exists|i: int|
                0 <= i < ps.len() && writes_placeholder(#[trigger] ps[i], x));
            if exists|i: int| 0 <= i < ps.len() && writes_placeholder(#[trigger] ps[i], x) {
                let i = choose|i: int| 0 <= i < ps.len() && writes_placeholder(#[trigger] ps[i], x);
                assert(writes_placeholder(steps[i], x));
            }
            if exists|i: int| 0 <= i < steps.len() && writes_placeholder(#[trigger] steps[i], x) {
                let i = choose|i: int| 0 <= i < steps.len() && writes_placeholder(#[trigger] steps[i], x);
                if i < n {
                    assert(writes_placeholder(ps[i], x));
                }
            }
        }
        if o.spec_on_failed_resolve() == FailedResolveStrategy::Error {
            assert forall|x: u16| #[trigger] views.last().unknown.contains(x) == views[0].unknown.contains(x) by {
                lemma_unknown_step(o, views[n], steps[n], views[n + 1], x);
            }
            assert(views.last().unknown =~= views[0].unknown);
        }
    } else {
        assert forall|x: u16|
            #[trigger] views.last().unknown.contains(x) <==> views[0].unknown.contains(x) || exists|i: int|
                0 <= i < steps.len() && writes_placeholder(#[trigger] steps[i], x) by {
        }
    }
}

/// Whether the token is a key that the options leave out.
pub open spec fn names_skipped_key(token: MeltToken, o: MeltOptions) -> bool {
    token matches MeltToken::Id(_, Some(id)) && skipped_key(id@, o)
}

/// Whether the token is a key that the options keep.
pub open spec fn names_kept_key(token: MeltToken, o: MeltOptions) -> bool {
    token matches MeltToken::Id(_, Some(id)) && !skipped_key(id@, o)
}

/// Over a whole successful melt, an `is_ironman` key (unless verbatim) and a
/// `checksum` key (when the checksum is skipped) are never written: their
/// steps skip the value, and every field written is another key.
pub proof fn law_skipped_keys_never_written(o: MeltOptions, views: Seq<MeltView>, steps: Seq<MeltStepRecord>)
    requires
        successful_run(o, views, steps),
    ensures
        forall|i: int|
            0 <= i < steps.len() && names_skipped_key((#[trigger] steps[i]).0, o) ==> steps[i].3
                == Ok::<MeltAction, Eu4ErrorKind>(MeltAction::SkipValue),
        forall|i: int|
            0 <= i < steps.len() && (#[trigger] steps[i]).3 == Ok::<MeltAction, Eu4ErrorKind>(
                MeltAction::WriteField,
            ) ==> names_kept_key(steps[i].0, o),
{
    assert forall|i: int| 0 <= i < steps.len() implies (names_skipped_key((#[trigger] steps[i]).0, o)
        ==> steps[i].3 == Ok::<MeltAction, Eu4ErrorKind>(MeltAction::SkipValue)) && (steps[i].3
        == Ok::<MeltAction, Eu4ErrorKind>(MeltAction::WriteField) ==> names_kept_key(steps[i].0, o)) by {
        assert(step_relation(o, views[i], steps[i].0, steps[i].1, steps[i].2, steps[i].3, views[i + 1]));
    }
}

/// After a field named `random` or `id`, or whose name ends in `seed`, the
/// next 32 bit integer is written as a plain number, never as a date,
/// whatever date its value would stand for.
pub proof fn law_known_number_keys_write_numbers(
    o: MeltOptions,
    s: MeltView,
    t: MeltView,
    u: MeltView,
    x: u16,
    id: &str,
    key_depth: usize,
    key_expected: bool,
    value: i32,
    value_depth: usize,
    value_expected: bool,
    r: Result<MeltAction, Eu4ErrorKind>,
)
    requires
        id@ == "random"@ || id@ == "id"@ || seq_ends_with(id.spec_bytes(), "seed".spec_bytes()),
        step_relation(
            o,
            s,
            MeltToken::Id(x, Some(id)),
            key_depth,
            key_expected,
            Ok::<MeltAction, Eu4ErrorKind>(MeltAction::WriteField),
            t,
        ),
        step_relation(o, t, MeltToken::I32(value), value_depth, value_expected, r, u),
    ensures
        r == Ok::<MeltAction, Eu4ErrorKind>(MeltAction::WriteScalar),
{
}

/// The next move of skipping a value, given the token just read and
/// whether a `=` was already read past.
pub fn skip_next(token: MeltToken, after_equal: bool) -> (n: SkipNext)
    ensures
        n == (match token {
            MeltToken::Equal => if after_equal {
                SkipNext::Done
            } else {
                SkipNext::ReadAnother
            },
            MeltToken::Open => SkipNext::SkipContainer,
            _ => SkipNext::Done,
        }),
{
    match token {
        MeltToken::Equal => if after_equal {
            SkipNext::Done
        } else {
            SkipNext::ReadAnother
        },
        MeltToken::Open => SkipNext::SkipContainer,
        _ => SkipNext::Done,
    }
}

} // verus!
