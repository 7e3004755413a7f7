//! Collecting violations and rendering the report.
use vstd::prelude::*;
use crate::parsers::{SourceSpan};
use crate::rules::violations::{Violation, ViolationKind};

verus! {

/// One recorded violation: what was violated, on which resource, and where in
/// the template text.
pub struct ErrorDetail {
    pub violation: ViolationKind,
    pub resource_name: String,
    pub span: Option<SourceSpan>,
}

/// The mathematical shape of an `ErrorDetail`.
#[verifier::ext_equal]
pub struct ErrorDetailView {
    pub violation: ViolationKind,
    pub resource_name: Seq<char>,
    pub span: Option<SourceSpan>,
}

impl DeepView for ErrorDetail {
    type V = ErrorDetailView;

    open spec fn deep_view(&self) -> ErrorDetailView {
        ErrorDetailView {
            violation: self.violation,
            resource_name: self.resource_name@,
            span: self.span,
        }
    }
}

impl ErrorDetail {
    /// Record a violation against a resource, with its span if one was found.
    pub fn new(violation: ViolationKind, resource_name: String, span: Option<SourceSpan>) -> (r:
        Self)
        ensures
            r.deep_view() == (ErrorDetailView {
                violation,
                resource_name: resource_name@,
                span,
            }),
    {
        Self { violation, resource_name, span }
    }
}

/// The violations found so far, in the order they were found, against the
/// template file they came from.
pub struct ErrorReporter {
    pub errors: Vec<ErrorDetail>,
    pub file_path: String,
}

/// The mathematical shape of an `ErrorReporter`.
#[verifier::ext_equal]
pub struct ErrorReporterView {
    pub errors: Seq<ErrorDetailView>,
    pub file_path: Seq<char>,
}

impl DeepView for ErrorReporter {
    type V = ErrorReporterView;

    open spec fn deep_view(&self) -> ErrorReporterView {
        ErrorReporterView {
            errors: Seq::new(self.errors@.len(), |i: int| self.errors@[i].deep_view()),
            file_path: self.file_path@,
        }
    }
}

impl ErrorReporter {
    /// A reporter with no findings yet.
    pub fn new(file_path: &str) -> (r: Self)
        ensures
            r.deep_view() == (ErrorReporterView {
                errors: Seq::<ErrorDetailView>::empty(),
                file_path: file_path@,
            }),
    {
        let r = ErrorReporter { errors: Vec::new(), file_path: file_path.to_owned() };
        proof {
            assert(r.deep_view().errors =~= Seq::<ErrorDetailView>::empty());
            assert(r.deep_view() =~= ErrorReporterView {
                errors: Seq::<ErrorDetailView>::empty(),
                file_path: file_path@,
            });
        }
        r
    }

    /// Record one violation; everything recorded before stays as it was.
    pub fn add_error(
        &mut self,
        violation: ViolationKind,
        resource_name: &str,
        span: Option<SourceSpan>,
    )
        ensures
            final(self).deep_view().errors == old(self).deep_view().errors.push(
                ErrorDetailView { violation, resource_name: resource_name@, span },
            ),
            final(self).deep_view().file_path == old(self).deep_view().file_path,
    {
        let detail = ErrorDetail::new(violation, resource_name.to_owned(), span);
        self.errors.push(detail);
        proof {
            assert(self.deep_view().errors =~= old(self).deep_view().errors.push(
                ErrorDetailView { violation, resource_name: resource_name@, span },
            ));
        }
    }

    /// Whether anything was recorded.
    pub fn has_errors(&self) -> (r: bool)
        ensures
            r == (self.deep_view().errors.len() != 0),
    {
        self.errors.len() != 0
    }

    /// Render the report: per violation one `code: resource: message` line and
    /// one location line, blank-line separated, in the order the violations
    /// were recorded.
    pub fn render_errors(&self) -> (r: String)
        ensures
            r@ == spec_render_errors(self.deep_view()),
    {
        let mut out = String::new();
        let mut i: usize = 0;
        proof {
            assert(self.deep_view().errors.take(0) =~= Seq::<ErrorDetailView>::empty());
        }
        while i < self.errors.len()
            invariant
                i <= self.errors.len(),
                self.deep_view().errors.len() == self.errors@.len(),
                forall|j: int|
                    0 <= j < self.errors@.len() ==> self.deep_view().errors[j]
                        == self.errors@[j].deep_view(),
                out@ == spec_render_list(self.deep_view().errors.take(i as int), self.file_path@),
            decreases self.errors.len() - i,
        {
            let ghost evs = self.deep_view().errors;
            if i > 0 {
                out.append("\n");
            }
            let e = &self.errors[i];
            let code = e.violation.code();
            out.append(code.as_str());
            out.append(": ");
            out.append(e.resource_name.as_str());
            out.append(": ");
            let message = e.violation.message();
            out.append(message.as_str());
            out.append("\n");
            match &e.span {
                Some(span) => match span.start {
                    Some(pos) => {
                        out.append(self.file_path.as_str());
                        out.append(":");
                        let line = u64_to_string(pos.line as u64);
                        out.append(line.as_str());
                    },
                    None => {
                        out.append(self.file_path.as_str());
                    },
                },
                None => {
                    out.append(self.file_path.as_str());
                },
            }
            out.append("\n");
            proof {
                assert(evs.take(i + 1).drop_last() =~= evs.take(i as int));
                assert(evs.take(i + 1).last() == evs[i as int]);
                assert(out@ =~= spec_render_list(evs.take(i + 1), self.file_path@));
            }
            i = i + 1;
        }
        proof {
            assert(self.deep_view().errors.take(self.errors@.len() as int) =~= self.deep_view()
                .errors);
        }
        out
    }
}

/// The decimal digit character for `d`.
pub open spec fn spec_digit(d: int) -> char {
    if d == 0 {
        '0'
    } else if d == 1 {
        '1'
    } else if d == 2 {
        '2'
    } else if d == 3 {
        '3'
    } else if d == 4 {
        '4'
    } else if d == 5 {
        '5'
    } else if d == 6 {
        '6'
    } else if d == 7 {
        '7'
    } else if d == 8 {
        '8'
    } else {
        '9'
    }
}

/// The decimal numeral of `n`, most significant digit first.
pub open spec fn spec_u64_digits(n: nat) -> Seq<char>
    decreases n,
{
    if n < 10 {
        seq![spec_digit(n as int)]
    } else {
        spec_u64_digits(n / 10).push(spec_digit((n % 10) as int))
    }
}

/// One decimal digit as text.
fn digit_str(d: u64) -> (r: &'static str)
    requires
        d < 10,
    ensures
        r@ == seq![spec_digit(d as int)],
{
    proof {
        reveal_strlit("0");
        reveal_strlit("1");
        reveal_strlit("2");
        reveal_strlit("3");
        reveal_strlit("4");
        reveal_strlit("5");
        reveal_strlit("6");
        reveal_strlit("7");
        reveal_strlit("8");
        reveal_strlit("9");
    }
    let r = if d == 0 {
        "0"
    } else if d == 1 {
        "1"
    } else if d == 2 {
        "2"
    } else if d == 3 {
        "3"
    } else if d == 4 {
        "4"
    } else if d == 5 {
        "5"
    } else if d == 6 {
        "6"
    } else if d == 7 {
        "7"
    } else if d == 8 {
        "8"
    } else {
        "9"
    };
    proof {
        assert(r@ =~= seq![spec_digit(d as int)]);
    }
    r
}

/// Render a number in decimal.
pub fn u64_to_string(n: u64) -> (r: String)
    ensures
        r@ == spec_u64_digits(n as nat),
    decreases n,
{
    if n < 10 {
        let mut s = String::new();
        s.append(digit_str(n));
        proof {
            assert(s@ =~= seq![spec_digit(n as int)]);
        }
        s
    } else {
        let mut s = u64_to_string(n / 10);
        s.append(digit_str(n % 10));
        proof {
            assert(s@ =~= spec_u64_digits(n as nat / 10).push(spec_digit((n as nat % 10) as int)));
        }
        s
    }
}

/// The location line of one violation: `file:line` when a span with a start is
/// known, else the file alone.
pub open spec fn spec_location(span: Option<SourceSpan>, file: Seq<char>) -> Seq<char> {
    match span {
        Some(sp) => match sp.start {
            Some(pos) => file + ":"@ + spec_u64_digits(pos.line as nat),
            None => file,
        },
        None => file,
    }
}

/// One violation rendered: its report line and its location line.
pub open spec fn spec_render_one(e: ErrorDetailView, file: Seq<char>) -> Seq<char> {
    e.violation.spec_code() + ": "@ + e.resource_name + ": "@ + e.violation.spec_message() + "\n"@
        + spec_location(e.span, file) + "\n"@
}

/// All violations rendered in recording order, blank-line separated.
pub open spec fn spec_render_list(errors: Seq<ErrorDetailView>, file: Seq<char>) -> Seq<char>
    decreases errors.len(),
{
    if errors.len() == 0 {
        Seq::empty()
    } else if errors.len() == 1 {
        spec_render_one(errors[0], file)
    } else {
        spec_render_list(errors.drop_last(), file) + "\n"@ + spec_render_one(errors.last(), file)
    }
}

/// The whole report.
pub open spec fn spec_render_errors(r: ErrorReporterView) -> Seq<char> {
    spec_render_list(r.errors, r.file_path)
}

} // verus!
