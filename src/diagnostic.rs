//! Plain-value model of one compiler diagnostic, as the filtering engine reads it.
use vstd::prelude::*;

verus! {

/// Severity of a diagnostic.
#[derive(PartialEq, Eq, Structural, Clone, Copy, Debug)]
pub enum Level {
    Ice,
    Error,
    Warning,
    FailureNote,
    Note,
    Help,
    Unknown,
}

impl Level {
    pub open spec fn spec_is_error(self) -> bool {
        self == Level::Ice || self == Level::Error
    }

    /// Whether the level is an error or an internal compiler error.
    pub fn is_error(&self) -> (r: bool)
        ensures
            r == self.spec_is_error(),
    {
        match self {
            Level::Ice => true,
            Level::Error => true,
            _ => false,
        }
    }
}

/// One hop of a macro-expansion chain: where the code was expanded from.
#[derive(Clone, Debug)]
pub struct Location {
    pub file_name: String,
    pub line_start: usize,
    pub column_start: usize,
}

pub struct LocationView {
    pub file_name: Seq<char>,
    pub line_start: usize,
    pub column_start: usize,
}

impl View for Location {
    type V = LocationView;

    open spec fn view(&self) -> LocationView {
        LocationView {
            file_name: self.file_name@,
            line_start: self.line_start,
            column_start: self.column_start,
        }
    }
}

impl Location {
    pub fn duplicate(&self) -> (r: Self)
        ensures
            r@ == self@,
    {
        Location {
            file_name: self.file_name.clone(),
            line_start: self.line_start,
            column_start: self.column_start,
        }
    }

    pub fn same_as(&self, other: &Self) -> (r: bool)
        ensures
            r == (self@ == other@),
    {
        self.file_name == other.file_name && self.line_start == other.line_start
            && self.column_start == other.column_start
    }
}

/// A source region a diagnostic points at. `expansion` lists the chain of
/// macro-expansion sites, innermost first: `expansion[0]` is the site this span
/// was expanded from, `expansion[1]` the site that one was expanded from, and so on.
#[derive(Clone, Debug)]
pub struct Span {
    pub file_name: String,
    pub line_start: usize,
    pub column_start: usize,
    pub is_primary: bool,
    pub expansion: Vec<Location>,
}

pub struct SpanView {
    pub file_name: Seq<char>,
    pub line_start: usize,
    pub column_start: usize,
    pub is_primary: bool,
    pub expansion: Seq<LocationView>,
}

pub open spec fn location_views(s: Seq<Location>) -> Seq<LocationView> {
    s.map_values(|l: Location| l@)
}

impl View for Span {
    type V = SpanView;

    open spec fn view(&self) -> SpanView {
        SpanView {
            file_name: self.file_name@,
            line_start: self.line_start,
            column_start: self.column_start,
            is_primary: self.is_primary,
            expansion: location_views(self.expansion@),
        }
    }
}

impl SpanView {
    /// The location of the span itself, without following any expansion.
    pub open spec fn location(self) -> LocationView {
        LocationView {
            file_name: self.file_name,
            line_start: self.line_start,
            column_start: self.column_start,
        }
    }
}

impl Span {
    pub fn location(&self) -> (r: Location)
        ensures
            r@ == self@.location(),
    {
        Location {
            file_name: self.file_name.clone(),
            line_start: self.line_start,
            column_start: self.column_start,
        }
    }

    pub fn duplicate(&self) -> (r: Self)
        ensures
            r@ == self@,
    {
        let mut expansion: Vec<Location> = Vec::new();
        let mut i: usize = 0;
        while i < self.expansion.len()
            invariant
                i <= self.expansion.len(),
                expansion@.len() == i,
                forall|j: int| 0 <= j < i ==> expansion@[j]@ == self.expansion@[j]@,
            decreases self.expansion.len() - i,
        {
            expansion.push(self.expansion[i].duplicate());
            i += 1;
        }
        assert(location_views(expansion@) =~= location_views(self.expansion@));
        Span {
            file_name: self.file_name.clone(),
            line_start: self.line_start,
            column_start: self.column_start,
            is_primary: self.is_primary,
            expansion,
        }
    }

    pub fn same_as(&self, other: &Self) -> (r: bool)
        ensures
            r == (self@ == other@),
    {
        if !(self.file_name == other.file_name && self.line_start == other.line_start
            && self.column_start == other.column_start && self.is_primary == other.is_primary
            && self.expansion.len() == other.expansion.len()) {
            assert(self@.expansion.len() == self.expansion.len());
            assert(other@.expansion.len() == other.expansion.len());
            return false;
        }
        let mut i: usize = 0;
        while i < self.expansion.len()
            invariant
                i <= self.expansion.len() == other.expansion.len(),
                forall|j: int| 0 <= j < i ==> self.expansion@[j]@ == other.expansion@[j]@,
            decreases self.expansion.len() - i,
        {
            if !self.expansion[i].same_as(&other.expansion[i]) {
                assert(location_views(self.expansion@)[i as int] != location_views(other.expansion@)[i as int]);
                return false;
            }
            i += 1;
        }
        assert(location_views(self.expansion@) =~= location_views(other.expansion@));
        true
    }
}

/// A compiler message: severity, summary text, rendered text, spans, the source
/// path of the build target it belongs to, and the message as one record of the
/// build tool's output (what is echoed in JSON output mode).
#[derive(Clone, Debug)]
pub struct Diagnostic {
    pub level: Level,
    pub message: String,
    pub rendered: Option<String>,
    pub spans: Vec<Span>,
    pub src_path: String,
    pub record: String,
}

pub struct DiagnosticView {
    pub level: Level,
    pub message: Seq<char>,
    pub rendered: Option<Seq<char>>,
    pub spans: Seq<SpanView>,
    pub src_path: Seq<char>,
    pub record: Seq<char>,
}

pub open spec fn span_views(s: Seq<Span>) -> Seq<SpanView> {
    s.map_values(|x: Span| x@)
}

pub open spec fn opt_view(o: Option<String>) -> Option<Seq<char>> {
    match o {
        Some(s) => Some(s@),
        None => None,
    }
}

impl View for Diagnostic {
    type V = DiagnosticView;

    open spec fn view(&self) -> DiagnosticView {
        DiagnosticView {
            level: self.level,
            message: self.message@,
            rendered: opt_view(self.rendered),
            spans: span_views(self.spans@),
            src_path: self.src_path@,
            record: self.record@,
        }
    }
}

/// The views of a sequence of diagnostics.
pub open spec fn views(s: Seq<Diagnostic>) -> Seq<DiagnosticView> {
    s.map_values(|d: Diagnostic| d@)
}

fn duplicate_option(o: &Option<String>) -> (r: Option<String>)
    ensures
        opt_view(r) == opt_view(*o),
{
    match o {
        Some(s) => Some(s.clone()),
        None => None,
    }
}

pub fn same_option(a: &Option<String>, b: &Option<String>) -> (r: bool)
    ensures
        r == (opt_view(*a) == opt_view(*b)),
{
    match a {
        Some(x) => match b {
            Some(y) => {
                let r = x.eq(y);
                assert(r == (x@ == y@));
                r
            },
            None => false,
        },
        None => b.is_none(),
    }
}

impl Diagnostic {
    pub fn duplicate(&self) -> (r: Self)
        ensures
            r@ == self@,
    {
        let mut spans: Vec<Span> = Vec::new();
        let mut i: usize = 0;
        while i < self.spans.len()
            invariant
                i <= self.spans.len(),
                spans@.len() == i,
                forall|j: int| 0 <= j < i ==> spans@[j]@ == self.spans@[j]@,
            decreases self.spans.len() - i,
        {
            spans.push(self.spans[i].duplicate());
            i += 1;
        }
        assert(span_views(spans@) =~= span_views(self.spans@));
        Diagnostic {
            level: self.level,
            message: self.message.clone(),
            rendered: duplicate_option(&self.rendered),
            spans,
            src_path: self.src_path.clone(),
            record: self.record.clone(),
        }
    }

    /// Structural identity: same severity, texts, spans and target.
    pub fn same_as(&self, other: &Self) -> (r: bool)
        ensures
            r == (self@ == other@),
    {
        if !(self.level == other.level && self.message == other.message
            && same_option(&self.rendered, &other.rendered) && self.src_path == other.src_path
            && self.record == other.record && self.spans.len() == other.spans.len()) {
            assert(self@.spans.len() == self.spans.len());
            assert(other@.spans.len() == other.spans.len());
            return false;
        }
        let mut i: usize = 0;
        while i < self.spans.len()
            invariant
                i <= self.spans.len() == other.spans.len(),
                forall|j: int| 0 <= j < i ==> self.spans@[j]@ == other.spans@[j]@,
            decreases self.spans.len() - i,
        {
            if !self.spans[i].same_as(&other.spans[i]) {
                assert(span_views(self.spans@)[i as int] != span_views(other.spans@)[i as int]);
                return false;
            }
            i += 1;
        }
        assert(span_views(self.spans@) =~= span_views(other.spans@));
        true
    }
}

} // verus!
