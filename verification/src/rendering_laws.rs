use vstd::prelude::*;
use vstd::utf8::{is_ascii_chars, is_ascii_chars_concat};
use crate::ast::{
    expr_text, exprs_text, pairs_text, stmt_text, stmts_text, ExprModel, IdentModel, StmtModel,
};
use crate::lexing_laws::{digit_char_of, letter_char};
use crate::text::{digit_char, digits_value, int_text, is_digits, join, nat_text, parse_i64};
use crate::token::{keyword_kind, TokenModel, TokenType};

verus! {

/// Whether a text is a name: a non-empty run of letters that is no keyword.
pub open spec fn is_name(value: Seq<char>) -> bool {
    &&& value.len() > 0
    &&& forall|i: int| 0 <= i < value.len() ==> letter_char(#[trigger] value[i])
    &&& keyword_kind(value) == TokenType::IDENT
}

/// Whether a token is a binary operator with the text that spells it.
pub open spec fn is_operator_token(token: TokenModel) -> bool {
    ||| token.kind == TokenType::PLUS && token.literal == seq!['+']
    ||| token.kind == TokenType::MINUS && token.literal == seq!['-']
    ||| token.kind == TokenType::ASTERISK && token.literal == seq!['*']
    ||| token.kind == TokenType::SLASH && token.literal == seq!['/']
    ||| token.kind == TokenType::LT && token.literal == seq!['<']
    ||| token.kind == TokenType::GT && token.literal == seq!['>']
    ||| token.kind == TokenType::EQ && token.literal == "=="@
    ||| token.kind == TokenType::NOTEQ && token.literal == "!="@
}

/// Whether a token is a prefix operator with the text that spells it.
pub open spec fn is_prefix_token(token: TokenModel) -> bool {
    ||| token.kind == TokenType::BANG && token.literal == "!"@
    ||| token.kind == TokenType::MINUS && token.literal == seq!['-']
}

/// Whether an expression is made of names, integers that are not negative, booleans,
/// prefix and infix operators, calls, arrays, indexes and hash literals, and every node
/// holds the token that the lexer gives for its place in the rendering.
pub open spec fn canonical(e: ExprModel) -> bool
    decreases e,
{
    match e {
        ExprModel::Identifier(id) => {
            &&& is_name(id.value)
            &&& id.token == (TokenModel { kind: TokenType::IDENT, literal: id.value })
        },
        ExprModel::Integer { token, value } => {
            &&& value >= 0
            &&& token == (TokenModel { kind: TokenType::INT, literal: int_text(value as int) })
        },
        ExprModel::Boolean { token, value } => token == (if value {
            TokenModel { kind: TokenType::TRUE, literal: "true"@ }
        } else {
            TokenModel { kind: TokenType::FALSE, literal: "false"@ }
        }),
        ExprModel::Prefix { token, operator, right } => {
            &&& is_prefix_token(token)
            &&& operator == token.literal
            &&& canonical(*right)
        },
        ExprModel::Infix { token, operator, left, right } => {
            &&& is_operator_token(token)
            &&& operator == token.literal
            &&& canonical(*left)
            &&& canonical(*right)
        },
        ExprModel::Call { token, function, args } => {
            &&& token == (TokenModel { kind: TokenType::LPAREN, literal: seq!['('] })
            &&& canonical(*function)
            &&& forall|i: int| 0 <= i < args.len() ==> canonical(#[trigger] args[i])
        },
        ExprModel::Array { token, items } => {
            &&& token == (TokenModel { kind: TokenType::LBRACKET, literal: seq!['['] })
            &&& forall|i: int| 0 <= i < items.len() ==> canonical(#[trigger] items[i])
        },
        ExprModel::Index { token, left, index } => {
            &&& token == (TokenModel { kind: TokenType::LBRACKET, literal: seq!['['] })
            &&& canonical(*left)
            &&& canonical(*index)
        },
        ExprModel::Hash { token, pairs } => {
            &&& token == (TokenModel { kind: TokenType::LBRACE, literal: seq!['{'] })
            &&& forall|i: int|
                0 <= i < pairs.len() ==> canonical((#[trigger] pairs[i]).0) && canonical(
                    pairs[i].1,
                )
        },
        _ => false,
    }
}

/// Whether a character can start the rendering of a canonical expression.
pub open spec fn opens(c: char) -> bool {
    letter_char(c) || digit_char_of(c) || c == '(' || c == '[' || c == '{'
}

/// The numeral of a natural number is a non-empty run of digits.
pub proof fn lemma_nat_text_digits(n: nat)
    ensures
        nat_text(n).len() > 0,
        forall|i: int| 0 <= i < nat_text(n).len() ==> digit_char_of(#[trigger] nat_text(n)[i]),
    decreases n,
{
    if n >= 10 {
        lemma_nat_text_digits(n / 10);
    }
}

/// The numeral of a natural number denotes the number.
pub proof fn lemma_nat_text_value(n: nat)
    ensures
        is_digits(nat_text(n)),
        digits_value(nat_text(n)) == n,
    decreases n,
{
    lemma_nat_text_digits(n);
    let s = nat_text(n);
    let d = (n % 10) as int;
    assert(digit_char(d) as u8 == 48 + d);
    if n >= 10 {
        lemma_nat_text_value(n / 10);
        assert(s.drop_last() =~= nat_text(n / 10));
        assert(s.last() == digit_char(d));
    } else {
        assert(s.drop_last() =~= Seq::<char>::empty());
        assert(s.last() == digit_char(d));
        assert(digits_value(s.drop_last()) == 0);
    }
}

/// The literal of an integer that is not negative reads back as the integer.
pub proof fn lemma_parse_int_text(v: i64)
    requires
        v >= 0,
    ensures
        parse_i64(int_text(v as int)) == Some(v),
{
    lemma_nat_text_value(v as nat);
}

/// The texts from position `i` on, with `sep` between one and the next.
pub open spec fn join_from(parts: Seq<Seq<char>>, i: int, sep: Seq<char>) -> Seq<char>
    decreases parts.len() - i,
{
    if i < 0 || i >= parts.len() {
        Seq::empty()
    } else if i + 1 < parts.len() {
        parts[i] + sep + join_from(parts, i + 1, sep)
    } else {
        parts[i]
    }
}

proof fn lemma_join_front(parts: Seq<Seq<char>>, sep: Seq<char>)
    requires
        parts.len() >= 2,
    ensures
        join(parts, sep) =~= parts[0] + sep + join(parts.drop_first(), sep),
    decreases parts.len(),
{
    reveal_with_fuel(join, 3);
    if parts.len() == 2 {
        assert(parts.drop_last() =~= seq![parts[0]]);
        assert(parts.drop_first() =~= seq![parts[1]]);
    } else {
        let front = parts.drop_last();
        lemma_join_front(front, sep);
        assert(parts.drop_first().drop_last() =~= front.drop_first());
        assert(parts.drop_first().last() == parts.last());
        assert(front[0] == parts[0]);
    }
}

/// Joining from the first text on is joining all.
pub proof fn lemma_join_from(parts: Seq<Seq<char>>, i: int, sep: Seq<char>)
    requires
        0 <= i <= parts.len(),
    ensures
        join_from(parts, i, sep) =~= join(parts.subrange(i, parts.len() as int), sep),
    decreases parts.len() - i,
{
    let rest = parts.subrange(i, parts.len() as int);
    if i + 1 < parts.len() {
        lemma_join_from(parts, i + 1, sep);
        lemma_join_front(rest, sep);
        assert(rest.drop_first() =~= parts.subrange(i + 1, parts.len() as int));
        assert(rest[0] == parts[i]);
    } else if i < parts.len() {
        assert(rest =~= seq![parts[i]]);
    }
}

/// The rendering of a list: the renderings of its expressions from the first on, with a
/// comma and a space between one and the next.
pub proof fn lemma_join_all(parts: Seq<Seq<char>>, sep: Seq<char>)
    ensures
        join(parts, sep) =~= join_from(parts, 0, sep),
{
    lemma_join_from(parts, 0, sep);
    assert(parts.subrange(0, parts.len() as int) =~= parts);
}

/// The rendering of a canonical expression is not empty, and starts with a letter, a
/// digit or an opening bracket.
pub proof fn lemma_text_opens(e: ExprModel)
    requires
        canonical(e),
    ensures
        expr_text(e).len() > 0,
        opens(expr_text(e)[0]),
    decreases e,
{
    reveal_strlit("(");
    reveal_strlit("[");
    reveal_strlit("{");
    reveal_strlit("true");
    reveal_strlit("false");
    match e {
        ExprModel::Integer { value, .. } => {
            lemma_nat_text_digits(value as nat);
        },
        ExprModel::Call { function, .. } => {
            lemma_text_opens(*function);
        },
        _ => {},
    }
}

/// Texts of ASCII characters, joined by a text of ASCII characters, give such a text.
pub proof fn lemma_join_ascii(parts: Seq<Seq<char>>, sep: Seq<char>)
    requires
        is_ascii_chars(sep),
        forall|i: int| 0 <= i < parts.len() ==> is_ascii_chars(#[trigger] parts[i]),
    ensures
        is_ascii_chars(join(parts, sep)),
    decreases parts.len(),
{
    if parts.len() >= 2 {
        lemma_join_ascii(parts.drop_last(), sep);
        let front = join(parts.drop_last(), sep);
        is_ascii_chars_concat(front + sep, front, sep);
        is_ascii_chars_concat(front + sep + parts.last(), front + sep, parts.last());
    }
}

/// The rendering of a canonical expression holds ASCII characters only.
pub proof fn lemma_text_ascii(e: ExprModel)
    requires
        canonical(e),
    ensures
        is_ascii_chars(expr_text(e)),
    decreases e,
{
    reveal_strlit("(");
    reveal_strlit(")");
    reveal_strlit("[");
    reveal_strlit("]");
    reveal_strlit("])");
    reveal_strlit("{");
    reveal_strlit("}");
    reveal_strlit(" ");
    reveal_strlit(", ");
    reveal_strlit(":");
    reveal_strlit("!");
    reveal_strlit("==");
    reveal_strlit("!=");
    reveal_strlit("true");
    reveal_strlit("false");
    match e {
        ExprModel::Identifier(id) => {
            assert forall|i: int| 0 <= i < id.value.len() implies '\0' <= #[trigger] id.value[i]
                <= '\u{7f}' by {
                assert(letter_char(id.value[i]));
            }
        },
        ExprModel::Integer { value, .. } => {
            lemma_nat_text_digits(value as nat);
            let t = nat_text(value as nat);
            assert forall|i: int| 0 <= i < t.len() implies '\0' <= #[trigger] t[i] <= '\u{7f}' by {
                assert(digit_char_of(t[i]));
            }
        },
        ExprModel::Boolean { .. } => {},
        ExprModel::Prefix { operator, right, .. } => {
            lemma_text_ascii(*right);
            let t1 = "("@ + operator;
            let t2 = t1 + expr_text(*right);
            is_ascii_chars_concat(t1, "("@, operator);
            is_ascii_chars_concat(t2, t1, expr_text(*right));
            is_ascii_chars_concat(t2 + ")"@, t2, ")"@);
        },
        ExprModel::Infix { operator, left, right, .. } => {
            lemma_text_ascii(*left);
            lemma_text_ascii(*right);
            let t1 = "("@ + expr_text(*left);
            let t2 = t1 + " "@;
            let t3 = t2 + operator;
            let t4 = t3 + " "@;
            let t5 = t4 + expr_text(*right);
            is_ascii_chars_concat(t1, "("@, expr_text(*left));
            is_ascii_chars_concat(t2, t1, " "@);
            is_ascii_chars_concat(t3, t2, operator);
            is_ascii_chars_concat(t4, t3, " "@);
            is_ascii_chars_concat(t5, t4, expr_text(*right));
            is_ascii_chars_concat(t5 + ")"@, t5, ")"@);
        },
        ExprModel::Call { function, args, .. } => {
            lemma_text_ascii(*function);
            lemma_exprs_ascii(args);
            let t1 = expr_text(*function) + "("@;
            let t2 = t1 + join(exprs_text(args), ", "@);
            is_ascii_chars_concat(t1, expr_text(*function), "("@);
            is_ascii_chars_concat(t2, t1, join(exprs_text(args), ", "@));
            is_ascii_chars_concat(t2 + ")"@, t2, ")"@);
        },
        ExprModel::Array { items, .. } => {
            lemma_exprs_ascii(items);
            let t1 = "["@ + join(exprs_text(items), ", "@);
            is_ascii_chars_concat(t1, "["@, join(exprs_text(items), ", "@));
            is_ascii_chars_concat(t1 + "]"@, t1, "]"@);
        },
        ExprModel::Index { left, index, .. } => {
            lemma_text_ascii(*left);
            lemma_text_ascii(*index);
            let t1 = "("@ + expr_text(*left);
            let t2 = t1 + "["@;
            let t3 = t2 + expr_text(*index);
            is_ascii_chars_concat(t1, "("@, expr_text(*left));
            is_ascii_chars_concat(t2, t1, "["@);
            is_ascii_chars_concat(t3, t2, expr_text(*index));
            is_ascii_chars_concat(t3 + "])"@, t3, "])"@);
        },
        ExprModel::Hash { pairs, .. } => {
            let parts = pairs_text(pairs);
            assert forall|i: int| 0 <= i < parts.len() implies is_ascii_chars(
                #[trigger] parts[i],
            ) by {
                lemma_text_ascii(pairs[i].0);
                lemma_text_ascii(pairs[i].1);
                let t1 = expr_text(pairs[i].0) + ":"@;
                is_ascii_chars_concat(t1, expr_text(pairs[i].0), ":"@);
                is_ascii_chars_concat(t1 + expr_text(pairs[i].1), t1, expr_text(pairs[i].1));
            }
            lemma_join_ascii(parts, ", "@);
            let t1 = "{"@ + join(parts, ", "@);
            is_ascii_chars_concat(t1, "{"@, join(parts, ", "@));
            is_ascii_chars_concat(t1 + "}"@, t1, "}"@);
        },
        _ => {},
    }
}

/// The renderings of canonical expressions, joined by commas, hold ASCII characters only.
pub proof fn lemma_exprs_ascii(items: Seq<ExprModel>)
    requires
        forall|i: int| 0 <= i < items.len() ==> canonical(#[trigger] items[i]),
    ensures
        is_ascii_chars(join(exprs_text(items), ", "@)),
    decreases items,
{
    reveal_strlit(", ");
    let parts = exprs_text(items);
    assert forall|i: int| 0 <= i < parts.len() implies is_ascii_chars(#[trigger] parts[i]) by {
        lemma_text_ascii(items[i]);
    }
    lemma_join_ascii(parts, ", "@);
}

/// The token with which the rendering of a canonical expression starts.
pub open spec fn first_token(e: ExprModel) -> TokenModel
    decreases e,
{
    match e {
        ExprModel::Identifier(id) => id.token,
        ExprModel::Integer { token, .. } => token,
        ExprModel::Boolean { token, .. } => token,
        ExprModel::Call { function, .. } => first_token(*function),
        ExprModel::Array { token, .. } => token,
        ExprModel::Hash { token, .. } => token,
        _ => TokenModel { kind: TokenType::LPAREN, literal: seq!['('] },
    }
}

/// Whether a statement is a `let` of a name to a canonical expression, or a canonical
/// expression, and holds the token that the lexer gives for the start of its rendering.
pub open spec fn canonical_stmt(s: StmtModel) -> bool {
    match s {
        StmtModel::Let { token, name, value } => {
            &&& token == (TokenModel { kind: TokenType::LET, literal: "let"@ })
            &&& is_name(name.value)
            &&& name.token == (TokenModel { kind: TokenType::IDENT, literal: name.value })
            &&& canonical(value)
        },
        StmtModel::Expression { token, expression } => {
            &&& canonical(expression)
            &&& token == first_token(expression)
        },
        _ => false,
    }
}

/// Whether a program is made of canonical statements of which only the last can be an
/// expression, so that the renderings of the statements, set one after the other, do not
/// run into each other.
pub open spec fn canonical_program(stmts: Seq<StmtModel>) -> bool {
    forall|i: int|
        0 <= i < stmts.len() ==> canonical_stmt(#[trigger] stmts[i]) && (stmts[i] is Let || i + 1
            == stmts.len())
}

/// The renderings of the statements from position `i` on, one after the other.
pub open spec fn stmts_text_from(stmts: Seq<StmtModel>, i: int) -> Seq<char>
    decreases stmts.len() - i,
{
    if i < 0 || i >= stmts.len() {
        Seq::empty()
    } else {
        stmt_text(stmts[i]) + stmts_text_from(stmts, i + 1)
    }
}

proof fn lemma_stmts_text_front(stmts: Seq<StmtModel>)
    requires
        stmts.len() >= 1,
    ensures
        stmts_text(stmts) =~= stmt_text(stmts[0]) + stmts_text(stmts.drop_first()),
    decreases stmts.len(),
{
    reveal_with_fuel(stmts_text, 2);
    if stmts.len() == 1 {
        assert(stmts.drop_last() =~= Seq::<StmtModel>::empty());
        assert(stmts.drop_first() =~= Seq::<StmtModel>::empty());
    } else {
        let front = stmts.drop_last();
        lemma_stmts_text_front(front);
        assert(stmts.drop_first().drop_last() =~= front.drop_first());
        assert(stmts.drop_first().last() == stmts.last());
        assert(front[0] == stmts[0]);
    }
}

/// The rendering of the statements from position `i` on is that of the rest of the program.
pub proof fn lemma_stmts_text_from(stmts: Seq<StmtModel>, i: int)
    requires
        0 <= i <= stmts.len(),
    ensures
        stmts_text_from(stmts, i) =~= stmts_text(stmts.subrange(i, stmts.len() as int)),
    decreases stmts.len() - i,
{
    let rest = stmts.subrange(i, stmts.len() as int);
    if i < stmts.len() {
        lemma_stmts_text_from(stmts, i + 1);
        lemma_stmts_text_front(rest);
        assert(rest.drop_first() =~= stmts.subrange(i + 1, stmts.len() as int));
        assert(rest[0] == stmts[i]);
    }
}

/// The rendering of a program is that of its statements from the first on.
pub proof fn lemma_stmts_text_all(stmts: Seq<StmtModel>)
    ensures
        stmts_text(stmts) =~= stmts_text_from(stmts, 0),
{
    lemma_stmts_text_from(stmts, 0);
    assert(stmts.subrange(0, stmts.len() as int) =~= stmts);
}

/// The rendering of a canonical statement holds ASCII characters only.
pub proof fn lemma_stmt_ascii(s: StmtModel)
    requires
        canonical_stmt(s),
    ensures
        is_ascii_chars(stmt_text(s)),
{
    reveal_strlit("let ");
    reveal_strlit(" = ");
    reveal_strlit(";");
    match s {
        StmtModel::Let { name, value, .. } => {
            lemma_text_ascii(value);
            assert forall|i: int| 0 <= i < name.value.len() implies '\0' <= #[trigger] name.value[i]
                <= '\u{7f}' by {
                assert(letter_char(name.value[i]));
            }
            let t1 = "let "@ + name.value;
            let t2 = t1 + " = "@;
            let t3 = t2 + expr_text(value);
            is_ascii_chars_concat(t1, "let "@, name.value);
            is_ascii_chars_concat(t2, t1, " = "@);
            is_ascii_chars_concat(t3, t2, expr_text(value));
            is_ascii_chars_concat(t3 + ";"@, t3, ";"@);
        },
        StmtModel::Expression { expression, .. } => {
            lemma_text_ascii(expression);
        },
        _ => {},
    }
}

/// The rendering of the statements of a canonical program from position `i` on holds ASCII
/// characters only.
pub proof fn lemma_stmts_ascii(stmts: Seq<StmtModel>, i: int)
    requires
        canonical_program(stmts),
        0 <= i <= stmts.len(),
    ensures
        is_ascii_chars(stmts_text_from(stmts, i)),
    decreases stmts.len() - i,
{
    if i < stmts.len() {
        lemma_stmts_ascii(stmts, i + 1);
        lemma_stmt_ascii(stmts[i]);
        is_ascii_chars_concat(
            stmt_text(stmts[i]) + stmts_text_from(stmts, i + 1),
            stmt_text(stmts[i]),
            stmts_text_from(stmts, i + 1),
        );
    }
}

/// Whether a text is one of the eight binary operators.
pub open spec fn is_operator_text(operator: Seq<char>) -> bool {
    operator == seq!['+'] || operator == seq!['-'] || operator == seq!['*'] || operator == seq![
        '/',
    ] || operator == seq!['<'] || operator == seq!['>'] || operator == "=="@ || operator == "!="@
}

/// The token that the lexer gives for the text of a binary operator.
pub open spec fn operator_token(operator: Seq<char>) -> TokenModel {
    TokenModel {
        kind: if operator == seq!['+'] {
            TokenType::PLUS
        } else if operator == seq!['-'] {
            TokenType::MINUS
        } else if operator == seq!['*'] {
            TokenType::ASTERISK
        } else if operator == seq!['/'] {
            TokenType::SLASH
        } else if operator == seq!['<'] {
            TokenType::LT
        } else if operator == seq!['>'] {
            TokenType::GT
        } else if operator == "=="@ {
            TokenType::EQ
        } else {
            TokenType::NOTEQ
        },
        literal: operator,
    }
}

/// The token that the lexer gives for the text of a prefix operator.
pub open spec fn prefix_token(operator: Seq<char>) -> TokenModel {
    TokenModel {
        kind: if operator == "!"@ {
            TokenType::BANG
        } else {
            TokenType::MINUS
        },
        literal: operator,
    }
}

/// Whether an expression is made of names, integers that are not negative, booleans, the
/// two prefix and the eight infix operators, calls, arrays, indexes and hash literals.
/// Nothing is asked of the tokens that its nodes hold.
pub open spec fn renderable(e: ExprModel) -> bool
    decreases e,
{
    match e {
        ExprModel::Identifier(id) => is_name(id.value),
        ExprModel::Integer { value, .. } => value >= 0,
        ExprModel::Boolean { .. } => true,
        ExprModel::Prefix { operator, right, .. } => {
            &&& (operator == "!"@ || operator == seq!['-'])
            &&& renderable(*right)
        },
        ExprModel::Infix { operator, left, right, .. } => {
            &&& is_operator_text(operator)
            &&& renderable(*left)
            &&& renderable(*right)
        },
        ExprModel::Call { function, args, .. } => {
            &&& renderable(*function)
            &&& forall|i: int| 0 <= i < args.len() ==> renderable(#[trigger] args[i])
        },
        ExprModel::Array { items, .. } => forall|i: int|
            0 <= i < items.len() ==> renderable(#[trigger] items[i]),
        ExprModel::Index { left, index, .. } => renderable(*left) && renderable(*index),
        ExprModel::Hash { pairs, .. } => forall|i: int|
            0 <= i < pairs.len() ==> renderable((#[trigger] pairs[i]).0) && renderable(pairs[i].1),
        _ => false,
    }
}

/// The expression with, in every node, the token that the lexer gives for the node's place
/// in the rendering.
pub open spec fn normal(e: ExprModel) -> ExprModel
    decreases e,
{
    match e {
        ExprModel::Identifier(id) => ExprModel::Identifier(
            IdentModel {
                token: TokenModel { kind: TokenType::IDENT, literal: id.value },
                value: id.value,
            },
        ),
        ExprModel::Integer { value, .. } => ExprModel::Integer {
            token: TokenModel { kind: TokenType::INT, literal: int_text(value as int) },
            value,
        },
        ExprModel::Boolean { value, .. } => ExprModel::Boolean {
            token: if value {
                TokenModel { kind: TokenType::TRUE, literal: "true"@ }
            } else {
                TokenModel { kind: TokenType::FALSE, literal: "false"@ }
            },
            value,
        },
        ExprModel::Prefix { operator, right, .. } => ExprModel::Prefix {
            token: prefix_token(operator),
            operator,
            right: Box::new(normal(*right)),
        },
        ExprModel::Infix { operator, left, right, .. } => ExprModel::Infix {
            token: operator_token(operator),
            operator,
            left: Box::new(normal(*left)),
            right: Box::new(normal(*right)),
        },
        ExprModel::Call { function, args, .. } => ExprModel::Call {
            token: TokenModel { kind: TokenType::LPAREN, literal: seq!['('] },
            function: Box::new(normal(*function)),
            args: normal_list(args),
        },
        ExprModel::Array { items, .. } => ExprModel::Array {
            token: TokenModel { kind: TokenType::LBRACKET, literal: seq!['['] },
            items: normal_list(items),
        },
        ExprModel::Index { left, index, .. } => ExprModel::Index {
            token: TokenModel { kind: TokenType::LBRACKET, literal: seq!['['] },
            left: Box::new(normal(*left)),
            index: Box::new(normal(*index)),
        },
        ExprModel::Hash { pairs, .. } => ExprModel::Hash {
            token: TokenModel { kind: TokenType::LBRACE, literal: seq!['{'] },
            pairs: normal_pairs(pairs),
        },
        _ => e,
    }
}

/// The expressions of a list, each with the lexer's tokens.
pub open spec fn normal_list(s: Seq<ExprModel>) -> Seq<ExprModel>
    decreases s,
{
    Seq::new(
        s.len(),
        |i: int|
            if 0 <= i < s.len() {
                normal(s[i])
            } else {
                arbitrary()
            },
    )
}

/// The pairs of a hash literal, each with the lexer's tokens.
pub open spec fn normal_pairs(s: Seq<(ExprModel, ExprModel)>) -> Seq<(ExprModel, ExprModel)>
    decreases s,
{
    Seq::new(
        s.len(),
        |i: int|
            if 0 <= i < s.len() {
                (normal(s[i].0), normal(s[i].1))
            } else {
                arbitrary()
            },
    )
}

/// A renderable expression with the lexer's tokens is canonical, and renders as before.
pub proof fn lemma_normal(e: ExprModel)
    requires
        renderable(e),
    ensures
        canonical(normal(e)),
        expr_text(normal(e)) == expr_text(e),
    decreases e,
{
    reveal_strlit("!");
    reveal_strlit("==");
    reveal_strlit("!=");
    match e {
        ExprModel::Prefix { right, .. } => {
            lemma_normal(*right);
        },
        ExprModel::Infix { left, right, .. } => {
            lemma_normal(*left);
            lemma_normal(*right);
        },
        ExprModel::Call { function, args, .. } => {
            lemma_normal(*function);
            lemma_normal_list(args);
        },
        ExprModel::Array { items, .. } => {
            lemma_normal_list(items);
        },
        ExprModel::Index { left, index, .. } => {
            lemma_normal(*left);
            lemma_normal(*index);
        },
        ExprModel::Hash { pairs, .. } => {
            let n = normal_pairs(pairs);
            assert forall|i: int| 0 <= i < pairs.len() implies canonical((#[trigger] n[i]).0)
                && canonical(n[i].1) && pairs_text(n)[i] == pairs_text(pairs)[i] by {
                lemma_normal(pairs[i].0);
                lemma_normal(pairs[i].1);
            }
            assert(pairs_text(n) =~= pairs_text(pairs));
        },
        _ => {},
    }
}

/// Renderable expressions with the lexer's tokens are canonical, and render as before.
pub proof fn lemma_normal_list(items: Seq<ExprModel>)
    requires
        forall|i: int| 0 <= i < items.len() ==> renderable(#[trigger] items[i]),
    ensures
        forall|i: int| 0 <= i < items.len() ==> canonical(#[trigger] normal_list(items)[i]),
        normal_list(items).len() == items.len(),
        exprs_text(normal_list(items)) == exprs_text(items),
    decreases items,
{
    let n = normal_list(items);
    assert forall|i: int| 0 <= i < items.len() implies canonical(#[trigger] n[i]) && exprs_text(
        n,
    )[i] == exprs_text(items)[i] by {
        lemma_normal(items[i]);
    }
    assert(exprs_text(n) =~= exprs_text(items));
}

/// Whether a statement is a `let` of a name to a renderable expression, or a renderable
/// expression.
pub open spec fn renderable_stmt(s: StmtModel) -> bool {
    match s {
        StmtModel::Let { name, value, .. } => is_name(name.value) && renderable(value),
        StmtModel::Expression { expression, .. } => renderable(expression),
        _ => false,
    }
}

/// The statement with the lexer's tokens.
pub open spec fn normal_stmt(s: StmtModel) -> StmtModel {
    match s {
        StmtModel::Let { name, value, .. } => StmtModel::Let {
            token: TokenModel { kind: TokenType::LET, literal: "let"@ },
            name: IdentModel {
                token: TokenModel { kind: TokenType::IDENT, literal: name.value },
                value: name.value,
            },
            value: normal(value),
        },
        StmtModel::Expression { expression, .. } => StmtModel::Expression {
            token: first_token(normal(expression)),
            expression: normal(expression),
        },
        _ => s,
    }
}

/// Whether a program is made of renderable statements of which only the last can be an
/// expression.
pub open spec fn renderable_program(stmts: Seq<StmtModel>) -> bool {
    forall|i: int|
        0 <= i < stmts.len() ==> renderable_stmt(#[trigger] stmts[i]) && (stmts[i] is Let || i
            + 1 == stmts.len())
}

/// The statements of a program, each with the lexer's tokens.
pub open spec fn normal_program(stmts: Seq<StmtModel>) -> Seq<StmtModel> {
    Seq::new(stmts.len(), |i: int| normal_stmt(stmts[i]))
}

/// A renderable program with the lexer's tokens is canonical, and renders as before.
pub proof fn lemma_normal_program(stmts: Seq<StmtModel>)
    requires
        renderable_program(stmts),
    ensures
        canonical_program(normal_program(stmts)),
        stmts_text(normal_program(stmts)) == stmts_text(stmts),
{
    let n = normal_program(stmts);
    assert forall|i: int| 0 <= i < n.len() implies canonical_stmt(#[trigger] n[i]) && (n[i] is Let
        || i + 1 == n.len()) && stmt_text(n[i]) == stmt_text(stmts[i]) by {
        match stmts[i] {
            StmtModel::Let { value, .. } => {
                lemma_normal(value);
            },
            StmtModel::Expression { expression, .. } => {
                lemma_normal(expression);
            },
            _ => {},
        }
    }
    lemma_same_stmts_text(n, stmts, 0);
    lemma_stmts_text_all(n);
    lemma_stmts_text_all(stmts);
}

proof fn lemma_same_stmts_text(a: Seq<StmtModel>, b: Seq<StmtModel>, i: int)
    requires
        a.len() == b.len(),
        0 <= i <= a.len(),
        forall|k: int| 0 <= k < a.len() ==> stmt_text(#[trigger] a[k]) == stmt_text(b[k]),
    ensures
        stmts_text_from(a, i) == stmts_text_from(b, i),
    decreases a.len() - i,
{
    if i < a.len() {
        lemma_same_stmts_text(a, b, i + 1);
    }
}

} // verus!
