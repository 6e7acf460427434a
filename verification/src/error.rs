//! The error type shared by the HTTP backends: a kind, a stack of context
//! strings, a severity and a scope.
use vstd::prelude::*;

verus! {

/// How serious an error is.
#[derive(Debug, Clone, Copy, PartialEq, Eq, Structural, PartialOrd, Ord, Hash)]
pub enum ErrorSeverity {
    Unknown,
    Error,
    Warning,
    Info,
    Debug,
}

impl Default for ErrorSeverity {
    fn default() -> (r: Self)
        ensures
            r == ErrorSeverity::Unknown,
    {
        ErrorSeverity::Unknown
    }
}

/// Which part of the exchange an error belongs to.
#[derive(Debug, Clone, Copy, PartialEq, Eq, Structural, PartialOrd, Ord, Hash)]
pub enum ErrorScope {
    Protocol,
    Connection,
    Request,
    Response,
    Unknown,
}

impl Default for ErrorScope {
    fn default() -> (r: Self)
        ensures
            r == ErrorScope::Unknown,
    {
        ErrorScope::Unknown
    }
}

/// The text a scope is shown as.
pub open spec fn scope_text(scope: ErrorScope) -> Seq<char> {
    match scope {
        ErrorScope::Protocol => "protocol"@,
        ErrorScope::Connection => "connection"@,
        ErrorScope::Request => "request"@,
        ErrorScope::Response => "response"@,
        ErrorScope::Unknown => "unknown"@,
    }
}

impl ErrorScope {
    /// The text this scope is displayed as.
    pub fn as_str(&self) -> (r: &'static str)
        ensures
            r@ == scope_text(*self),
    {
        match self {
            ErrorScope::Protocol => "protocol",
            ErrorScope::Connection => "connection",
            ErrorScope::Request => "request",
            ErrorScope::Response => "response",
            ErrorScope::Unknown => "unknown",
        }
    }
}


/// The settings an error is created or annotated with.
pub struct ErrorConfig {
    pub severity: ErrorSeverity,
    pub scope: ErrorScope,
    pub context: &'static str,
}

/// What went wrong. Errors of the networking stack that sit below this
/// library are carried by the text they display as.
#[derive(Debug)]
pub enum ErrorKind {
    Http(String),
    Hyper(String),
    Closed,
    Unknown(String),
    Io(String),
    Timeout,
    Configuration,
}

/// The text a kind is displayed as.
pub open spec fn kind_text(kind: ErrorKind) -> Seq<char> {
    match kind {
        ErrorKind::Http(m) => m@,
        ErrorKind::Hyper(m) => m@,
        ErrorKind::Closed => "closed"@,
        ErrorKind::Unknown(m) => m@,
        ErrorKind::Io(m) => m@,
        ErrorKind::Timeout => "timeout"@,
        ErrorKind::Configuration => "configuration"@,
    }
}

impl ErrorKind {
    /// The text this kind is displayed as.
    pub fn message(&self) -> (r: String)
        ensures
            r@ == kind_text(*self),
    {
        match self {
            ErrorKind::Http(m) => m.clone(),
            ErrorKind::Hyper(m) => m.clone(),
            ErrorKind::Closed => String::from_str("closed"),
            ErrorKind::Unknown(m) => m.clone(),
            ErrorKind::Io(m) => m.clone(),
            ErrorKind::Timeout => String::from_str("timeout"),
            ErrorKind::Configuration => String::from_str("configuration"),
        }
    }
}

/// The abstract content of an [`Error`].
pub struct ErrorModel {
    pub kind: Option<ErrorKind>,
    pub context: Seq<Seq<char>>,
    pub severity: ErrorSeverity,
    pub scope: ErrorScope,
}

/// An error of the HTTP backends.
#[derive(Debug)]
pub struct Error {
    kind: Option<ErrorKind>,
    context: Vec<&'static str>,
    severity: ErrorSeverity,
    scope: ErrorScope,
}

impl View for Error {
    type V = ErrorModel;

    closed spec fn view(&self) -> ErrorModel {
        ErrorModel {
            kind: self.kind,
            context: self.context@.map_values(|c: &'static str| c@),
            severity: self.severity,
            scope: self.scope,
        }
    }
}

/// Joins the parts with `": "` between them.
pub open spec fn join_parts(parts: Seq<Seq<char>>) -> Seq<char>
    decreases parts.len(),
{
    if parts.len() == 0 {
        Seq::empty()
    } else if parts.len() == 1 {
        parts[0]
    } else {
        join_parts(parts.drop_last()) + ": "@ + parts.last()
    }
}

/// The parts an error is displayed as: its scope unless unknown, its context
/// from the most recent to the oldest, then its kind.
pub open spec fn display_parts(e: ErrorModel) -> Seq<Seq<char>> {
    (if e.scope != ErrorScope::Unknown { seq![scope_text(e.scope)] } else { Seq::empty() })
        + e.context.reverse()
        + (match e.kind {
        Some(k) => seq![kind_text(k)],
        None => Seq::empty(),
    })
}

/// A context pushed onto an error is shown before every older one, right
/// after the scope, and nothing else of what is shown changes.
pub proof fn law_latest_context_first(e: ErrorModel, c: Seq<char>)
    ensures
        display_parts(ErrorModel { context: e.context.push(c), ..e }) == (if e.scope
            != ErrorScope::Unknown {
            seq![scope_text(e.scope)]
        } else {
            Seq::empty()
        }) + seq![c] + e.context.reverse() + (match e.kind {
            Some(k) => seq![kind_text(k)],
            None => Seq::empty(),
        }),
{
    assert(e.context.push(c).reverse() =~= seq![c] + e.context.reverse());
    let head: Seq<Seq<char>> = if e.scope != ErrorScope::Unknown {
        seq![scope_text(e.scope)]
    } else {
        Seq::empty()
    };
    let tail: Seq<Seq<char>> = match e.kind {
        Some(k) => seq![kind_text(k)],
        None => Seq::empty(),
    };
    assert(head + e.context.push(c).reverse() + tail =~= head + seq![c] + e.context.reverse() + tail);
}

impl ErrorConfig {
    /// Creates a new error carrying this configuration.
    pub fn build(self) -> (r: Error)
        ensures
            r@.kind is None,
            r@.severity == self.severity,
            r@.scope == self.scope,
            r@.context == seq![self.context@],
    {
        Error::new().with_config(self)
    }
}

impl Error {
    /// An error of no kind, of severity `Error` and unknown scope.
    pub fn new() -> (r: Self)
        ensures
            r@.kind is None,
            r@.context == Seq::<Seq<char>>::empty(),
            r@.severity == ErrorSeverity::Error,
            r@.scope == ErrorScope::Unknown,
    {
        let r = Error {
            kind: None,
            context: Vec::new(),
            severity: ErrorSeverity::Error,
            scope: ErrorScope::Unknown,
        };
        proof {
            assert(r@.context =~= Seq::<Seq<char>>::empty());
        }
        r
    }

    /// An error of the given kind, otherwise as [`Error::new`].
    pub fn with_kind(kind: ErrorKind) -> (r: Self)
        ensures
            r@.kind == Some(kind),
            r@.context == Seq::<Seq<char>>::empty(),
            r@.severity == ErrorSeverity::Error,
            r@.scope == ErrorScope::Unknown,
    {
        let mut error = Self::new();
        error.kind = Some(kind);
        error
    }

    pub fn with_severity(self, severity: ErrorSeverity) -> (r: Self)
        ensures
            r@ == (ErrorModel { severity, ..self@ }),
    {
        let mut s = self;
        s.severity = severity;
        s
    }

    pub fn with_scope(self, scope: ErrorScope) -> (r: Self)
        ensures
            r@ == (ErrorModel { scope, ..self@ }),
    {
        let mut s = self;
        s.scope = scope;
        s
    }

    /// Pushes a context string onto the error.
    pub fn with_context(self, request: &'static str) -> (r: Self)
        ensures
            r@ == (ErrorModel { context: self@.context.push(request@), ..self@ }),
    {
        let mut s = self;
        let ghost before = s.context@;
        s.context.push(request);
        proof {
            assert(s.context@.map_values(|c: &'static str| c@) =~= before.map_values(
                |c: &'static str| c@,
            ).push(request@));
        }
        s
    }

    pub fn into_kind(self) -> (r: Option<ErrorKind>)
        ensures
            r == self@.kind,
    {
        self.kind
    }

    pub fn kind(&self) -> (r: Option<&ErrorKind>)
        ensures
            match r {
                Some(k) => self@.kind == Some(*k),
                None => self@.kind is None,
            },
    {
        self.kind.as_ref()
    }

    /// The context strings, oldest first.
    pub fn context(&self) -> (r: &[&'static str])
        ensures
            r@.map_values(|c: &'static str| c@) == self@.context,
    {
        self.context.as_slice()
    }

    pub fn severity(&self) -> (r: ErrorSeverity)
        ensures
            r == self@.severity,
    {
        self.severity
    }

    pub fn scope(&self) -> (r: ErrorScope)
        ensures
            r == self@.scope,
    {
        self.scope
    }

    /// Sets severity and scope and pushes the context of `config`.
    pub fn with_config(self, config: ErrorConfig) -> (r: Self)
        ensures
            r@ == (ErrorModel {
                severity: config.severity,
                scope: config.scope,
                context: self@.context.push(config.context@),
                ..self@
            }),
    {
        self.with_severity(config.severity).with_scope(config.scope).with_context(config.context)
    }

    /// The text this error is displayed as: its scope unless unknown, then its
    /// context from the most recent to the oldest, then its kind, separated
    /// by `": "`.
    pub fn render(&self) -> (r: String)
        ensures
            r@ == join_parts(display_parts(self@)),
    {
        let mut out = String::new();
        let mut first = true;
        let ghost mut parts: Seq<Seq<char>> = Seq::empty();
        if self.scope != ErrorScope::Unknown {
            first = false;
            out.append(self.scope.as_str());
            proof {
                parts = seq![scope_text(self.scope)];
                assert(join_parts(parts) == parts[0]);
            }
        }
        let ghost ctx = self@.context;
        let n = self.context.len();
        let mut i: usize = n;
        while i > 0
            invariant
                i <= n,
                n == self.context@.len(),
                ctx == self@.context,
                ctx.len() == n,
                first == (parts.len() == 0),
                out@ == join_parts(parts),
                parts == (if self@.scope != ErrorScope::Unknown { seq![scope_text(self@.scope)] } else { Seq::empty() })
                    + ctx.subrange(i as int, n as int).reverse(),
            decreases i,
        {
            i = i - 1;
            let c: &'static str = self.context[i];
            if !first {
                out.append(": ");
            }
            first = false;
            out.append(c);
            proof {
                let old_parts = parts;
                parts = parts.push(c@);
                assert(ctx[i as int] == c@);
                assert(parts.drop_last() =~= old_parts);
                assert(ctx.subrange(i as int, n as int).reverse() =~= ctx.subrange(
                    (i + 1) as int,
                    n as int,
                ).reverse().push(ctx[i as int]));
                assert(parts =~= (if self@.scope != ErrorScope::Unknown { seq![scope_text(self@.scope)] } else { Seq::empty() })
                    + ctx.subrange(i as int, n as int).reverse());
            }
        }
        if let Some(kind) = &self.kind {
            if !first {
                out.append(": ");
            }
            let m = kind.message();
            out.append(m.as_str());
            proof {
                let old_parts = parts;
                parts = parts.push(kind_text(*kind));
                assert(parts.drop_last() =~= old_parts);
            }
        }
        proof {
            assert(ctx.subrange(0, n as int) =~= ctx);
            assert(parts =~= display_parts(self@));
        }
        out
    }
}

} // verus!
