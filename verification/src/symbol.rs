//! The symbol table: named single-character constants (and two short
//! compounds) that the query-string syntax and the escape table are written
//! with.

use vstd::prelude::*;

verus! {

/// Named string constants for the delimiter and escape-table characters.
pub struct Symbol {
    pub new_line_carriage_return: &'static str,
    pub new_line: &'static str,
    pub carriage_return: &'static str,
    pub empty_string: &'static str,
    pub whitespace: &'static str,
    pub equals: &'static str,
    pub comma: &'static str,
    pub hyphen: &'static str,
    pub slash: &'static str,
    pub semicolon: &'static str,
    pub colon: &'static str,
    pub number_sign: &'static str,
    pub opening_square_bracket: &'static str,
    pub closing_square_bracket: &'static str,
    pub opening_curly_bracket: &'static str,
    pub closing_curly_bracket: &'static str,
    pub quotation_mark: &'static str,
    pub underscore: &'static str,
    pub single_quote: &'static str,
    pub percent: &'static str,
    pub exclamation_mark: &'static str,
    pub dollar: &'static str,
    pub ampersand: &'static str,
    pub opening_bracket: &'static str,
    pub closing_bracket: &'static str,
    pub asterisk: &'static str,
    pub plus: &'static str,
    pub question_mark: &'static str,
    pub at: &'static str,
}

impl Symbol {
    /// Each field holds exactly the characters its name announces.
    pub open spec fn wf(&self) -> bool {
        &&& self.new_line_carriage_return@ == seq!['\r', '\n']
        &&& self.new_line@ == seq!['\n']
        &&& self.carriage_return@ == seq!['\r']
        &&& self.empty_string@ == Seq::<char>::empty()
        &&& self.whitespace@ == seq![' ']
        &&& self.equals@ == seq!['=']
        &&& self.comma@ == seq![',']
        &&& self.hyphen@ == seq!['-']
        &&& self.slash@ == seq!['/']
        &&& self.semicolon@ == seq![';']
        &&& self.colon@ == seq![':']
        &&& self.number_sign@ == seq!['#']
        &&& self.opening_square_bracket@ == seq!['[']
        &&& self.closing_square_bracket@ == seq![']']
        &&& self.opening_curly_bracket@ == seq!['{']
        &&& self.closing_curly_bracket@ == seq!['}']
        &&& self.quotation_mark@ == seq!['"']
        &&& self.underscore@ == seq!['_']
        &&& self.single_quote@ == seq!['\'']
        &&& self.percent@ == seq!['%']
        &&& self.exclamation_mark@ == seq!['!']
        &&& self.dollar@ == seq!['$']
        &&& self.ampersand@ == seq!['&']
        &&& self.opening_bracket@ == seq!['(']
        &&& self.closing_bracket@ == seq![')']
        &&& self.asterisk@ == seq!['*']
        &&& self.plus@ == seq!['+']
        &&& self.question_mark@ == seq!['?']
        &&& self.at@ == seq!['@']
    }

    /// The table, with every constant at its name.
    pub fn new() -> (s: Symbol)
        ensures
            s.wf(),
    {
        let s = Symbol {
            new_line_carriage_return: "\r\n",
            new_line: "\n",
            carriage_return: "\r",
            empty_string: "",
            whitespace: " ",
            equals: "=",
            comma: ",",
            hyphen: "-",
            slash: "/",
            semicolon: ";",
            colon: ":",
            number_sign: "#",
            opening_square_bracket: "[",
            closing_square_bracket: "]",
            opening_curly_bracket: "{",
            closing_curly_bracket: "}",
            quotation_mark: "\"",
            underscore: "_",
            single_quote: "'",
            percent: "%",
            exclamation_mark: "!",
            dollar: "$",
            ampersand: "&",
            opening_bracket: "(",
            closing_bracket: ")",
            asterisk: "*",
            plus: "+",
            question_mark: "?",
            at: "@",
        };
        proof {
            reveal_strlit("\r\n");
            reveal_strlit("\n");
            reveal_strlit("\r");
            reveal_strlit("");
            reveal_strlit(" ");
            reveal_strlit("=");
            reveal_strlit(",");
            reveal_strlit("-");
            reveal_strlit("/");
            reveal_strlit(";");
            reveal_strlit(":");
            reveal_strlit("#");
            reveal_strlit("[");
            reveal_strlit("]");
            reveal_strlit("{");
            reveal_strlit("}");
            reveal_strlit("\"");
            reveal_strlit("_");
            reveal_strlit("'");
            reveal_strlit("%");
            reveal_strlit("!");
            reveal_strlit("$");
            reveal_strlit("&");
            reveal_strlit("(");
            reveal_strlit(")");
            reveal_strlit("*");
            reveal_strlit("+");
            reveal_strlit("?");
            reveal_strlit("@");
            assert(s.new_line_carriage_return@ =~= seq!['\r', '\n']);
            assert(s.new_line@ =~= seq!['\n']);
            assert(s.carriage_return@ =~= seq!['\r']);
            assert(s.empty_string@ =~= Seq::<char>::empty());
            assert(s.whitespace@ =~= seq![' ']);
            assert(s.equals@ =~= seq!['=']);
            assert(s.comma@ =~= seq![',']);
            assert(s.hyphen@ =~= seq!['-']);
            assert(s.slash@ =~= seq!['/']);
            assert(s.semicolon@ =~= seq![';']);
            assert(s.colon@ =~= seq![':']);
            assert(s.number_sign@ =~= seq!['#']);
            assert(s.opening_square_bracket@ =~= seq!['[']);
            assert(s.closing_square_bracket@ =~= seq![']']);
            assert(s.opening_curly_bracket@ =~= seq!['{']);
            assert(s.closing_curly_bracket@ =~= seq!['}']);
            assert(s.quotation_mark@ =~= seq!['"']);
            assert(s.underscore@ =~= seq!['_']);
            assert(s.single_quote@ =~= seq!['\'']);
            assert(s.percent@ =~= seq!['%']);
            assert(s.exclamation_mark@ =~= seq!['!']);
            assert(s.dollar@ =~= seq!['$']);
            assert(s.ampersand@ =~= seq!['&']);
            assert(s.opening_bracket@ =~= seq!['(']);
            assert(s.closing_bracket@ =~= seq![')']);
            assert(s.asterisk@ =~= seq!['*']);
            assert(s.plus@ =~= seq!['+']);
            assert(s.question_mark@ =~= seq!['?']);
            assert(s.at@ =~= seq!['@']);
        }
        s
    }
}

} // verus!
