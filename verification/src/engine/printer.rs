//! The printer: it renders a value as readable text, collections over
//! several lines.

use super::value::{
    values, PrimitiveModel, RuntimeVariableAbstractData, RuntimeVariableAbstractPrimitiveData,
    ValueModel,
};
use super::vm::RuntimeVariable;
use crate::text::{push_signed_decimal, signed_decimal};
use vstd::prelude::*;
use vstd::string::StringExecFns;

verus! {

/// `unit` written `n` times.
pub open spec fn repeated(unit: Seq<char>, n: nat) -> Seq<char>
    decreases n,
{
    if n == 0 {
        Seq::empty()
    } else {
        repeated(unit, (n - 1) as nat) + unit
    }
}

/// The elements of a collection; none for any other value.
pub open spec fn elements(v: ValueModel) -> Seq<ValueModel> {
    match v {
        ValueModel::Array(items) => items,
        ValueModel::SetOf(items) => items,
        ValueModel::Tuple(items) => items,
        _ => Seq::empty(),
    }
}

/// The text of a value at the indentation `indent`.
///
/// Nothing prints as `None`, an article as its title, a category and a
/// string as their text, an integer as its decimal numeral. An array prints
/// as `[`, its elements and `]`, a set as `(`, its elements and `)`, each on
/// a line of its own; an element stands four delimiters further in and has
/// a comma behind it. A tuple prints on one line as `(`, its elements with
/// `, ` between them, and `)`.
pub open spec fn print_value(v: ValueModel, indent: Seq<char>, delimiter: Seq<char>) -> Seq<char>
    decreases v, elements(v).len() + 1,
{
    match v {
        ValueModel::Void => "None"@,
        ValueModel::Primitive(PrimitiveModel::Article(a)) => a.title,
        ValueModel::Primitive(PrimitiveModel::Category(name)) => name,
        ValueModel::Primitive(PrimitiveModel::Integer(n)) => signed_decimal(n),
        ValueModel::Primitive(PrimitiveModel::String(text)) => text,
        ValueModel::Array(items) => indent + "[\n"@ + print_lines(
            v,
            items.len() as int,
            indent + repeated(delimiter, 4),
            delimiter,
        ) + indent + "]\n"@,
        ValueModel::SetOf(items) => indent + "(\n"@ + print_lines(
            v,
            items.len() as int,
            indent + repeated(delimiter, 4),
            delimiter,
        ) + indent + ")\n"@,
        ValueModel::Tuple(items) => "("@ + print_joined(v, items.len() as int, indent, delimiter)
            + ")"@,
    }
}

/// The first `n` elements of the collection `v`, each on a line of its own
/// at the indentation `indent`, with a comma behind it.
pub open spec fn print_lines(
    v: ValueModel,
    n: int,
    indent: Seq<char>,
    delimiter: Seq<char>,
) -> Seq<char>
    decreases v, n,
{
    if 0 < n <= elements(v).len() {
        print_lines(v, n - 1, indent, delimiter) + indent + print_value(
            elements(v)[n - 1],
            indent,
            delimiter,
        ) + ",\n"@
    } else {
        Seq::empty()
    }
}

/// The first `n` elements of the tuple `v` with `, ` between them.
pub open spec fn print_joined(
    v: ValueModel,
    n: int,
    indent: Seq<char>,
    delimiter: Seq<char>,
) -> Seq<char>
    decreases v, n,
{
    if 0 < n <= elements(v).len() {
        print_joined(v, n - 1, indent, delimiter) + print_value(
            elements(v)[n - 1],
            indent,
            delimiter,
        ) + (if n < elements(v).len() {
            ", "@
        } else {
            Seq::empty()
        })
    } else {
        Seq::empty()
    }
}

/// Renders values as text.
pub struct Printer<'a> {
    indent_delimeter: &'a str,
    indent: usize,
}

impl<'a> Printer<'a> {
    /// The text that one step of indentation is made of.
    pub closed spec fn delimiter(&self) -> Seq<char> {
        self.indent_delimeter@
    }

    /// The number of delimiters that the outermost value is indented by.
    pub closed spec fn depth(&self) -> nat {
        self.indent as nat
    }

    /// A printer that indents with spaces and starts at the margin.
    pub fn new() -> (printer: Self)
        ensures
            printer.delimiter() == seq![' '],
            printer.depth() == 0,
    {
        proof {
            reveal_strlit(" ");
        }
        assert(" "@ =~= seq![' ']);
        Printer { indent: 0, indent_delimeter: " " }
    }

    /// The text of the value of `var`.
    pub fn do_print(&mut self, var: RuntimeVariable<'a>) -> (out: String)
        ensures
            out@ == print_value(
                var.data@,
                repeated(old(self).delimiter(), old(self).depth()),
                old(self).delimiter(),
            ),
            final(self).delimiter() == old(self).delimiter(),
            final(self).depth() == old(self).depth(),
    {
        self.print(&var.data)
    }

    /// The text of a value.
    pub fn print(&self, data: &RuntimeVariableAbstractData) -> (out: String)
        ensures
            out@ == print_value(data@, repeated(self.delimiter(), self.depth()), self.delimiter()),
    {
        let mut out = String::new();
        let mut indent = String::new();
        let mut k: usize = 0;
        while k < self.indent
            invariant
                0 <= k <= self.indent,
                indent@ == repeated(self.indent_delimeter@, k as nat),
            decreases self.indent - k,
        {
            indent.append(self.indent_delimeter);
            k += 1;
        }
        self.print_var(&mut out, data, indent.as_str());
        assert(out@ =~= print_value(
            data@,
            repeated(self.delimiter(), self.depth()),
            self.delimiter(),
        ));
        out
    }

    /// The indentation of the elements of a collection at `indent`.
    fn inner_indent(&self, indent: &str) -> (inner: String)
        ensures
            inner@ == indent@ + repeated(self.delimiter(), 4),
    {
        let mut inner = String::from_str(indent);
        inner.append(self.indent_delimeter);
        inner.append(self.indent_delimeter);
        inner.append(self.indent_delimeter);
        inner.append(self.indent_delimeter);
        proof {
            reveal_with_fuel(repeated, 5);
        }
        assert(inner@ =~= indent@ + repeated(self.delimiter(), 4));
        inner
    }

    /// Appends the text of `var` at the indentation `indent` to `out`.
    #[verifier::loop_isolation(false)]
    fn print_var(&self, out: &mut String, var: &RuntimeVariableAbstractData, indent: &str)
        ensures
            final(out)@ == old(out)@ + print_value(var@, indent@, self.delimiter()),
        decreases var, 1nat,
    {
        let ghost delimiter = self.delimiter();
        match var {
            RuntimeVariableAbstractData::Void => {
                out.append("None");
            },
            RuntimeVariableAbstractData::Primitive(e) => match e {
                RuntimeVariableAbstractPrimitiveData::Article(e) => {
                    out.append(e.title.as_str());
                },
                RuntimeVariableAbstractPrimitiveData::Category(e) => {
                    out.append(e);
                },
                RuntimeVariableAbstractPrimitiveData::Integer(e) => {
                    push_signed_decimal(out, *e);
                },
                RuntimeVariableAbstractPrimitiveData::String(e) => {
                    out.append(e.as_str());
                },
            },
            RuntimeVariableAbstractData::Array(e) => {
                assert(elements(var@) =~= values(e@));
                out.append(indent);
                out.append("[\n");
                let inner = self.inner_indent(indent);
                self.print_lines(out, var, &**e, inner.as_str());
                out.append(indent);
                out.append("]\n");
                assert(out@ =~= old(out)@ + print_value(var@, indent@, delimiter));
            },
            RuntimeVariableAbstractData::SetOf(e) => {
                assert(elements(var@) =~= values(e@));
                out.append(indent);
                out.append("(\n");
                let inner = self.inner_indent(indent);
                self.print_lines(out, var, &**e, inner.as_str());
                out.append(indent);
                out.append(")\n");
                assert(out@ =~= old(out)@ + print_value(var@, indent@, delimiter));
            },
            RuntimeVariableAbstractData::Tuple(e) => {
                assert(elements(var@) =~= values(e@));
                out.append("(");
                let ghost start = out@;
                let mut i: usize = 0;
                while i < e.len()
                    invariant
                        0 <= i <= e.len(),
                        out@ == start + print_joined(var@, i as int, indent@, delimiter),
                    decreases e.len() - i,
                {
                    let ghost before = out@;
                    self.print_var(out, &e[i], indent);
                    if i != e.len() - 1 {
                        out.append(", ");
                    } else {
                        assert(out@ =~= before + print_value(e[i as int]@, indent@, delimiter)
                            + Seq::<char>::empty());
                    }
                    i += 1;
                    assert(out@ =~= start + print_joined(var@, i as int, indent@, delimiter));
                }
                out.append(")");
                assert(out@ =~= old(out)@ + print_value(var@, indent@, delimiter));
            },
        }
    }

    /// Appends the elements `items` of the collection `var`, each on a line
    /// of its own at the indentation `indent`, to `out`.
    #[verifier::loop_isolation(false)]
    fn print_lines(
        &self,
        out: &mut String,
        var: &RuntimeVariableAbstractData,
        items: &Vec<RuntimeVariableAbstractData>,
        indent: &str,
    )
        requires
            elements(var@) == values(items@),
            forall|i: int| 0 <= i < items.len() ==> decreases_to!(var => #[trigger] items[i]),
        ensures
            final(out)@ == old(out)@ + print_lines(
                var@,
                items.len() as int,
                indent@,
                self.delimiter(),
            ),
        decreases var, 0nat,
    {
        let ghost delimiter = self.delimiter();
        let mut i: usize = 0;
        while i < items.len()
            invariant
                0 <= i <= items.len(),
                out@ == old(out)@ + print_lines(var@, i as int, indent@, delimiter),
            decreases items.len() - i,
        {
            out.append(indent);
            self.print_var(out, &items[i], indent);
            out.append(",\n");
            i += 1;
            assert(out@ =~= old(out)@ + print_lines(var@, i as int, indent@, delimiter));
        }
    }
}

} // verus!
