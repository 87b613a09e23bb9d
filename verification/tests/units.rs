use stepper_lib::ast::{
    Call, CallArgValue, CallOutput, Fold, FunctionPart, Instruction, Match, MisMatch, Next, Null, Par,
    PeerPart, Sequence, Xor,
};
use stepper_lib::json::{is_plain_path, JNumber, JValue};
use stepper_lib::lexer::{lex, LexerError, Spanned, Token};
use stepper_lib::merger::{merge_call, DataMergingError, TraceMerger};
use stepper_lib::numbers::integer_in_text;
use stepper_lib::outcome::to_decimal;
use stepper_lib::parser::{parse, AIRParser, ParserError};
use stepper_lib::resolve::Triplet;
use stepper_lib::context::ExecutionError;
use stepper_lib::trace::{is_well_formed, CallResult, ExecutedState, ParResult};

fn sent(peer: &str) -> ExecutedState {
    ExecutedState::Call(CallResult::RequestSentBy(String::from(peer)))
}

fn executed(text: &str) -> ExecutedState {
    ExecutedState::Call(CallResult::Executed(JValue::parse(text).unwrap()))
}

fn failed(message: &str) -> ExecutedState {
    ExecutedState::Call(CallResult::CallServiceFailed(String::from(message)))
}

fn par(left: usize, right: usize) -> ExecutedState {
    ExecutedState::Par(ParResult(left, right))
}

fn merge(prev: &[ExecutedState], current: &[ExecutedState]) -> Result<Vec<ExecutedState>, DataMergingError> {
    let aqua = Instruction::Null(Null);
    assert!(is_well_formed(&prev.to_vec()) && is_well_formed(&current.to_vec()));
    TraceMerger::new(prev.to_vec(), current.to_vec(), &aqua).merge()
}

fn variable(name: &str) -> CallArgValue {
    CallArgValue::Variable(String::from(name))
}

fn literal(text: &str) -> CallArgValue {
    CallArgValue::Literal(String::from(text))
}

#[test]
fn json_text_and_parse() {
    let value = JValue::Object(vec![
        (String::from("b"), JValue::Array(vec![JValue::Number(JNumber::PosInt(1)), JValue::Null])),
        (String::from("a"), JValue::Number(JNumber::Float(String::from("2.5")))),
        (String::from("n"), JValue::Number(JNumber::NegInt(-7))),
        (String::from("t"), JValue::Bool(true)),
    ]);
    let text = value.to_text();
    assert_eq!(text, r#"{"b":[1,null],"a":2.5,"n":-7,"t":true}"#);
    assert_eq!(JValue::parse(&text), Some(value.clone()));
    assert_eq!(JValue::parse(" [ ] "), Some(JValue::Array(vec![])));
    assert_eq!(JValue::parse("{oops"), None);
    assert_eq!(JValue::parse(""), None);
}

#[test]
fn json_equality() {
    let value = JValue::parse(r#"{"b":[1,null],"a":2.5,"n":-7,"t":true}"#).unwrap();
    assert!(value.equals(&value.clone()));
    assert!(!value.equals(&JValue::Null));
    // the entries of an object are compared as a map
    let other = JValue::parse(r#"{"t":true,"n":-7,"a":2.5,"b":[1,null]}"#).unwrap();
    assert!(value != other);
    assert!(value.equals(&other));
    assert!(other.equals(&value));
    let nested = |text: &str| JValue::parse(text).unwrap();
    assert!(nested(r#"[{"x":1,"y":{"p":1,"q":2}}]"#).equals(&nested(r#"[{"y":{"q":2,"p":1},"x":1}]"#)));
    assert!(!nested(r#"{"x":1,"y":2}"#).equals(&nested(r#"{"x":1,"y":3}"#)));
    assert!(!nested(r#"{"x":1,"y":2}"#).equals(&nested(r#"{"x":1}"#)));
    // the items of an array are compared in order
    assert!(!nested("[1,2]").equals(&nested("[2,1]")));
    // numbers are compared by their value within one kind
    assert!(nested("0.0").equals(&nested("-0.0")));
    assert!(nested("1.50").equals(&nested("1.5")));
    assert!(!nested("1").equals(&nested("1.0")));
    assert!(!nested("1").equals(&nested("-1")));
}

#[test]
fn json_select() {
    let value = JValue::parse(r#"{"a":[10,{"b":"x"},30],"c":{"b":"y"}}"#).unwrap();
    assert_eq!(value.select("$.a.[0]"), Some(Ok(vec![JValue::Number(JNumber::PosInt(10))])));
    assert_eq!(value.select("$.a[1].b"), Some(Ok(vec![JValue::String(String::from("x"))])));
    assert_eq!(
        value.select("$..b"),
        Some(Ok(vec![JValue::String(String::from("x")), JValue::String(String::from("y"))]))
    );
    assert_eq!(value.select("$.missing"), Some(Ok(vec![])));
    assert_eq!(value.select("$"), Some(Ok(vec![value.clone()])));
    assert!(matches!(value.select("a"), Some(Err(_))));
    assert_eq!(value.select("$.a[?(@.b)]"), None);
    assert_eq!(value.select("$.a[0:2]"), None);
    assert!(is_plain_path("$.a-b_c.[12].*"));
    assert!(!is_plain_path("$.a b"));
    assert!(!is_plain_path("$['a']"));
}

#[test]
fn lexer_tokens() {
    let tokens = lex(r#"(call m.$.[1] ("s" "") [x %init_peer_id%] acc[])"#).unwrap();
    let kinds: Vec<Token> = tokens.into_iter().map(|spanned| spanned.token).collect();
    assert_eq!(
        kinds,
        vec![
            Token::OpenRoundBracket,
            Token::Call,
            Token::JsonPath { variable: String::from("m"), path: String::from("$.[1]") },
            Token::OpenRoundBracket,
            Token::StringLiteral(String::from("s")),
            Token::StringLiteral(String::new()),
            Token::CloseRoundBracket,
            Token::OpenSquareBracket,
            Token::Alphanumeric(String::from("x")),
            Token::InitPeerId,
            Token::CloseSquareBracket,
            Token::Accumulator(String::from("acc")),
            Token::CloseRoundBracket,
        ]
    );
    assert_eq!(
        lex("seq\tpar\nnull fold xor next match mismatch")
            .unwrap()
            .into_iter()
            .map(|spanned| spanned.token)
            .collect::<Vec<_>>(),
        vec![
            Token::Sequence,
            Token::Par,
            Token::Null,
            Token::Fold,
            Token::Xor,
            Token::Next,
            Token::Match,
            Token::MisMatch,
        ]
    );
    assert_eq!(
        lex(" (ab\r\n \"c d\"").unwrap(),
        vec![
            Spanned { start: 1, token: Token::OpenRoundBracket, end: 2 },
            Spanned { start: 2, token: Token::Alphanumeric(String::from("ab")), end: 4 },
            Spanned { start: 7, token: Token::StringLiteral(String::from("c d")), end: 12 },
        ]
    );
    assert_eq!(lex(""), Ok(vec![]));
}

#[test]
fn lexer_errors() {
    assert_eq!(lex(r#"(call "abc)"#), Err(LexerError::UnclosedQuote(6, 11)));
    assert_eq!(lex("(next a$b)"), Err(LexerError::IsNotAlphanumeric(7, 7)));
    assert_eq!(lex("(call x.$.[?] y)"), Err(LexerError::InvalidJsonPath(11, 11)));
    assert_eq!(lex("(call a+b.$ y)"), Err(LexerError::IsNotAlphanumeric(7, 7)));
    assert_eq!(lex("(call x y [] z![])"), Err(LexerError::IsNotAlphanumeric(14, 14)));
    assert_eq!(lex("ab []x"), Ok(vec![
        Spanned { start: 0, token: Token::Alphanumeric(String::from("ab")), end: 2 },
        Spanned { start: 3, token: Token::OpenSquareBracket, end: 4 },
        Spanned { start: 4, token: Token::CloseSquareBracket, end: 5 },
        Spanned { start: 5, token: Token::Alphanumeric(String::from("x")), end: 6 },
    ]));
    assert_eq!(lex("a [[]]"), Ok(vec![
        Spanned { start: 0, token: Token::Alphanumeric(String::from("a")), end: 1 },
        Spanned { start: 2, token: Token::OpenSquareBracket, end: 3 },
        Spanned { start: 3, token: Token::OpenSquareBracket, end: 4 },
        Spanned { start: 4, token: Token::CloseSquareBracket, end: 5 },
        Spanned { start: 5, token: Token::CloseSquareBracket, end: 6 },
    ]));
    assert_eq!(lex("x([])"), Err(LexerError::IsNotAlphanumeric(1, 1)));
}

#[test]
fn parser_builds_every_instruction() {
    let script = r#"
        (seq
            (par (null) (xor (next it) (call ("p" sid) f [a "b" c.$.d] out)))
            (fold xs.$.items it
                (match it "x" (mismatch it.$.a y (call %init_peer_id% ("s" "f") [] acc[])))
            )
        )"#;
    let call_1 = Instruction::Call(Call {
        peer_part: PeerPart::PeerPkWithServiceId(literal("p"), variable("sid")),
        function_part: FunctionPart::FuncName(variable("f")),
        args: vec![
            variable("a"),
            literal("b"),
            CallArgValue::JsonPath { variable: String::from("c"), path: String::from("$.d") },
        ],
        output: CallOutput::Scalar(String::from("out")),
    });
    let call_2 = Instruction::Call(Call {
        peer_part: PeerPart::PeerPk(CallArgValue::InitPeerId),
        function_part: FunctionPart::ServiceIdWithFuncName(literal("s"), literal("f")),
        args: vec![],
        output: CallOutput::Accumulator(String::from("acc")),
    });
    let expected = Instruction::Sequence(Sequence(
        Box::new(Instruction::Par(Par(
            Box::new(Instruction::Null(Null)),
            Box::new(Instruction::Xor(Xor(
                Box::new(Instruction::Next(Next(String::from("it")))),
                Box::new(call_1),
            ))),
        ))),
        Box::new(Instruction::Fold(Fold {
            iterable: CallArgValue::JsonPath { variable: String::from("xs"), path: String::from("$.items") },
            iterator: String::from("it"),
            instruction: Box::new(Instruction::Match(Match {
                left_value: variable("it"),
                right_value: literal("x"),
                instruction: Box::new(Instruction::MisMatch(MisMatch {
                    left_value: CallArgValue::JsonPath { variable: String::from("it"), path: String::from("$.a") },
                    right_value: variable("y"),
                    instruction: Box::new(call_2),
                })),
            })),
        })),
    ));
    assert_eq!(parse(script), Ok(expected));
    let mut errors = vec![ParserError::UnrecognizedEof { location: 7 }];
    assert_eq!(AIRParser::new().parse("(null)", &mut errors), Ok(Instruction::Null(Null)));
    assert_eq!(AIRParser::new().parse(script, &mut errors), parse(script));
    assert_eq!(errors, vec![ParserError::UnrecognizedEof { location: 7 }]);
}

#[test]
fn parser_errors() {
    assert_eq!(parse(""), Err(ParserError::UnrecognizedEof { location: 0 }));
    assert_eq!(parse("(seq (null)"), Err(ParserError::UnrecognizedEof { location: 11 }));
    assert_eq!(parse("(null) (null)"), Err(ParserError::ExtraToken { start: 7, end: 8 }));
    assert_eq!(parse("(nul)"), Err(ParserError::UnrecognizedToken { start: 1, end: 4 }));
    assert_eq!(parse("(call p f x)"), Err(ParserError::UnrecognizedToken { start: 10, end: 11 }));
    assert_eq!(parse("(fold \"x\" i (null))"), Err(ParserError::UnrecognizedToken { start: 6, end: 9 }));
    assert_eq!(parse("(match %init_peer_id% x (null))"), Err(ParserError::UnrecognizedToken { start: 7, end: 21 }));
    assert_eq!(parse("(next \"x)"), Err(ParserError::Lexer(LexerError::UnclosedQuote(6, 9))));
    assert_eq!(parse("(call p f [] out[] extra)"), Err(ParserError::UnrecognizedToken { start: 19, end: 24 }));
}

#[test]
fn triplet_of_a_call() {
    let peer = PeerPart::PeerPkWithServiceId(literal("p"), literal("s1"));
    let function = FunctionPart::ServiceIdWithFuncName(literal("s2"), literal("f"));
    let triplet = Triplet::try_from(&peer, &function).unwrap();
    assert_eq!(
        (triplet.peer_pk, triplet.service_id, triplet.function_name),
        (&literal("p"), &literal("s2"), &literal("f"))
    );
    let function = FunctionPart::FuncName(literal("f"));
    let triplet = Triplet::try_from(&peer, &function).unwrap();
    assert_eq!(triplet.service_id, &literal("s1"));
    let peer = PeerPart::PeerPk(literal("p"));
    assert_eq!(
        Triplet::try_from(&peer, &function).err(),
        Some(ExecutionError::InstructionError(String::from(
            "call should have service id specified by peer part or function part"
        )))
    );
}

#[test]
fn merge_call_lattice() {
    let sent = |peer: &str| CallResult::RequestSentBy(String::from(peer));
    let executed = |text: &str| CallResult::Executed(JValue::parse(text).unwrap());
    let failed = |message: &str| CallResult::CallServiceFailed(String::from(message));
    let conflict = |a: CallResult, b: CallResult| Err(DataMergingError::IncompatibleCallResults(a, b));

    assert_eq!(merge_call(sent("p"), sent("p")), Ok(sent("p")));
    assert_eq!(merge_call(sent("p"), sent("q")), conflict(sent("p"), sent("q")));
    assert_eq!(merge_call(sent("p"), executed("1")), Ok(executed("1")));
    assert_eq!(merge_call(sent("p"), failed("m")), Ok(failed("m")));
    assert_eq!(merge_call(executed("1"), sent("p")), Ok(executed("1")));
    assert_eq!(merge_call(executed("[1]"), executed("[1]")), Ok(executed("[1]")));
    // two values that are equal as JSON values are kept: the first of them
    assert_eq!(
        merge_call(executed(r#"{"a":1,"b":2}"#), executed(r#"{"b":2,"a":1}"#)),
        Ok(executed(r#"{"a":1,"b":2}"#))
    );
    assert_eq!(
        merge_call(executed(r#"{"b":2,"a":1}"#), executed(r#"{"a":1,"b":2}"#)),
        Ok(executed(r#"{"b":2,"a":1}"#))
    );
    assert_eq!(merge_call(executed("0.0"), executed("-0.0")), Ok(executed("0.0")));
    assert_eq!(
        merge_call(executed(r#"{"a":1,"b":2}"#), executed(r#"{"a":1,"b":3}"#)),
        conflict(executed(r#"{"a":1,"b":2}"#), executed(r#"{"a":1,"b":3}"#))
    );
    assert_eq!(merge_call(executed("1"), executed("2")), conflict(executed("1"), executed("2")));
    assert_eq!(merge_call(executed("1"), failed("m")), conflict(executed("1"), failed("m")));
    assert_eq!(merge_call(failed("m"), sent("p")), Ok(failed("m")));
    assert_eq!(merge_call(failed("m"), executed("1")), conflict(failed("m"), executed("1")));
    assert_eq!(merge_call(failed("m"), failed("m")), Ok(failed("m")));
    assert_eq!(merge_call(failed("m"), failed("n")), conflict(failed("m"), failed("n")));
}

#[test]
fn merge_of_traces() {
    let x = vec![executed("1"), par(1, 2), sent("a"), par(1, 0), sent("a")];
    let y = vec![executed("1"), par(2, 2), executed("2"), sent("b"), par(1, 0), sent("a"), failed("late")];
    let z = vec![executed("1"), par(1, 3), sent("a"), par(2, 0), executed("3"), sent("c")];

    let xy = merge(&x, &y).unwrap();
    assert_eq!(
        xy,
        vec![executed("1"), par(2, 2), executed("2"), sent("b"), par(1, 0), sent("a"), failed("late")]
    );
    assert!(is_well_formed(&xy));

    // a trace merged with itself is that trace
    assert_eq!(merge(&x, &x), Ok(x.clone()));
    assert_eq!(merge(&y, &y), Ok(y.clone()));
    // the order of the two traces does not matter
    assert_eq!(merge(&y, &x), Ok(xy.clone()));
    // nor does the grouping
    let yz = merge(&y, &z).unwrap();
    let left = merge(&xy, &z).unwrap();
    let right = merge(&x, &yz).unwrap();
    assert_eq!(left, right);
    assert_eq!(
        left,
        vec![
            executed("1"),
            par(2, 3),
            executed("2"),
            sent("b"),
            par(2, 0),
            executed("3"),
            sent("c"),
            failed("late"),
        ]
    );
    assert!(is_well_formed(&left));

    assert_eq!(merge(&[], &x), Ok(x.clone()));
    assert_eq!(merge(&x, &[]), Ok(x.clone()));
    assert_eq!(merge(&[], &[]), Ok(vec![]));
}

#[test]
fn merge_errors() {
    assert_eq!(
        merge(&[sent("a"), par(0, 0)], &[sent("a"), executed("1")]),
        Err(DataMergingError::IncompatibleExecutedStates(par(0, 0), executed("1")))
    );
    assert_eq!(
        merge(&[par(1, 0), executed("1")], &[par(1, 0), executed("2")]),
        Err(DataMergingError::IncompatibleCallResults(
            CallResult::Executed(JValue::parse("1").unwrap()),
            CallResult::Executed(JValue::parse("2").unwrap()),
        ))
    );
}

#[test]
fn well_formed_traces() {
    assert!(is_well_formed(&vec![]));
    assert!(is_well_formed(&vec![par(0, 0)]));
    assert!(is_well_formed(&vec![par(1, 2), sent("a"), par(1, 0), sent("a")]));
    assert!(!is_well_formed(&vec![par(1, 0)]));
    assert!(!is_well_formed(&vec![par(1, 1), par(1, 0), sent("a")]));
    assert!(!is_well_formed(&vec![par(usize::MAX, usize::MAX), sent("a")]));
}

#[test]
fn decimal_numbers() {
    assert_eq!(to_decimal(0), "0");
    assert_eq!(to_decimal(9), "9");
    assert_eq!(to_decimal(10), "10");
    assert_eq!(to_decimal(4096), "4096");
    assert_eq!(to_decimal(usize::MAX), usize::MAX.to_string());
}

#[test]
fn ast_of_a_script() {
    assert_eq!(stepper_lib::printer::ast(String::from("(null)")), r#"{"Null":null}"#);
    assert_eq!(
        stepper_lib::printer::ast(String::from(
            r#"(seq (call ("p" s) f [%init_peer_id% x.$.a] out[]) (fold xs i (par (next i) (xor (match i "1" (null)) (mismatch a b (call "p" ("s" "f") []))))))"#
        )),
        concat_all(&[
            r#"{"Seq":[{"Call":{"peer_part":{"PeerPkWithServiceId":[{"Literal":"p"},{"Variable":"s"}]},"#,
            r#""function_part":{"FuncName":{"Variable":"f"}},"#,
            r#""args":["InitPeerId",{"JsonPath":{"variable":"x","path":"$.a"}}],"output":{"Accumulator":"out"}}},"#,
            r#"{"Fold":{"iterable":{"Variable":"xs"},"iterator":"i","instruction":{"Par":[{"Next":"i"},"#,
            r#"{"Xor":[{"Match":{"left_value":{"Variable":"i"},"right_value":{"Literal":"1"},"instruction":{"Null":null}}},"#,
            r#"{"MisMatch":{"left_value":{"Variable":"a"},"right_value":{"Variable":"b"},"instruction":"#,
            r#"{"Call":{"peer_part":{"PeerPk":{"Literal":"p"}},"function_part":{"ServiceIdWithFuncName":[{"Literal":"s"},{"Literal":"f"}]},"#,
            r#""args":[],"output":"None"}}}}]}]}}}]}"#,
        ])
    );
    assert_eq!(
        stepper_lib::printer::ast(String::from("(next \"x)")),
        r#"{"error":"this string literal has unclosed quote at 6"}"#
    );
}

fn concat_all(parts: &[&str]) -> String {
    parts.iter().map(|part| String::from(*part)).collect::<Vec<_>>().join("")
}

#[test]
fn lexer_takes_letters_of_any_alphabet() {
    assert_eq!(
        lex("(next имя_1)\u{a0}\"héllo wörld\""),
        Ok(vec![
            Spanned { start: 0, token: Token::OpenRoundBracket, end: 1 },
            Spanned { start: 1, token: Token::Next, end: 5 },
            Spanned { start: 6, token: Token::Alphanumeric(String::from("имя_1")), end: 11 },
            Spanned { start: 11, token: Token::CloseRoundBracket, end: 12 },
            Spanned { start: 13, token: Token::StringLiteral(String::from("héllo wörld")), end: 26 },
        ])
    );
    assert_eq!(lex("a€b"), Err(LexerError::IsNotAlphanumeric(1, 1)));
    assert_eq!(lex("x.$.ключ"), Err(LexerError::InvalidJsonPath(4, 4)));
}

#[test]
fn select_answers_every_short_plain_path() {
    let value = JValue::parse(r#"{"a":[1,{"a":"x","1":[2,3]},[4]],"1":{"a":null},"-":true,"_":"y"}"#).unwrap();
    let alphabet = ['$', '.', '[', ']', '*', '-', '_', 'a', '1'];
    let mut paths = vec![String::new()];
    let mut answered = 0usize;
    for _ in 0..6 {
        let mut longer = Vec::new();
        for path in &paths {
            for c in alphabet {
                let mut next = path.clone();
                next.push(c);
                assert!(is_plain_path(&next));
                assert!(value.select(&next).is_some());
                answered += 1;
                longer.push(next);
            }
        }
        paths = longer;
    }
    assert_eq!(answered, 9 + 81 + 729 + 6561 + 59049 + 531441);
    assert_eq!(
        value.select("$[-1]"),
        Some(Ok(vec![JValue::Array(vec![JValue::Number(JNumber::PosInt(4))])]))
    );
    assert_eq!(value.select("$.a[-1][0]"), Some(Ok(vec![JValue::Number(JNumber::PosInt(4))])));
    assert!(matches!(value.select("$.a[99999999999999999999999999]"), Some(Err(_))));
}

#[test]
fn accumulator_without_a_name() {
    let chars: Vec<char> = "[]".chars().collect();
    assert_eq!(
        stepper_lib::lexer::string_to_token("[]", &chars, 0, 2),
        Err(LexerError::EmptyAccName(0, 2))
    );
    let chars: Vec<char> = "a [] b".chars().collect();
    assert_eq!(
        stepper_lib::lexer::string_to_token("a [] b", &chars, 2, 4),
        Err(LexerError::EmptyAccName(2, 4))
    );
    assert_eq!(
        stepper_lib::lexer::string_to_token("a [] b", &chars, 5, 6),
        Ok(Token::Alphanumeric(String::from("b")))
    );
}

#[test]
fn lexer_error_messages() {
    assert_eq!(LexerError::UnclosedQuote(0, 1).message(), "this string literal has unclosed quote");
    assert_eq!(LexerError::EmptyString(0, 0).message(), "empty string aren't allowed in this position");
    assert_eq!(
        LexerError::IsNotAlphanumeric(0, 0).message(),
        "only alphanumeric and _, - characters are allowed in this position"
    );
    assert_eq!(LexerError::EmptyAccName(0, 2).message(), "an accumulator name should be non empty");
    assert_eq!(LexerError::InvalidJsonPath(0, 0).message(), "invalid character in json path");
}

#[test]
fn entry_points_at_the_root() {
    assert_eq!(stepper_lib::ast(String::from("(null)")), r#"{"Null":null}"#);
    assert_eq!(stepper_lib::parse("(null)"), Ok(Instruction::Null(Null)));
    let service = |_: String, _: String, _: String| stepper_lib::CallServiceResult {
        ret_code: 0,
        result: String::from("null"),
    };
    let outcome: stepper_lib::StepperOutcome = stepper_lib::execute_aqua(
        String::from("init"),
        String::from(r#"(call "me" ("s" "f") [])"#),
        Vec::new(),
        Vec::new(),
        String::from("me"),
        &service,
    );
    assert_eq!(outcome.data, br#"[{"call":{"executed":null}}]"#.to_vec());
}

fn count_errors(instr: &Instruction) -> usize {
    match instr {
        Instruction::Error => 1,
        Instruction::Sequence(Sequence(left, right)) => count_errors(left) + count_errors(right),
        Instruction::Par(Par(left, right)) => count_errors(left) + count_errors(right),
        Instruction::Xor(Xor(left, right)) => count_errors(left) + count_errors(right),
        Instruction::Fold(fold) => count_errors(&fold.instruction),
        Instruction::Match(m) => count_errors(&m.instruction),
        Instruction::MisMatch(m) => count_errors(&m.instruction),
        _ => 0,
    }
}

#[test]
fn parser_recovers_from_errors() {
    let old = ParserError::ExtraToken { start: 1, end: 2 };
    let mut errors = vec![old];
    let script = r#"(seq (nul) (par (call p f x) (fold xs i (xor (next) (null)))))"#;
    let ast = AIRParser::new().parse(script, &mut errors).unwrap();
    assert_eq!(
        ast,
        Instruction::Sequence(Sequence(
            Box::new(Instruction::Error),
            Box::new(Instruction::Par(Par(
                Box::new(Instruction::Error),
                Box::new(Instruction::Fold(Fold {
                    iterable: variable("xs"),
                    iterator: String::from("i"),
                    instruction: Box::new(Instruction::Xor(Xor(
                        Box::new(Instruction::Error),
                        Box::new(Instruction::Null(Null)),
                    ))),
                })),
            ))),
        ))
    );
    assert_eq!(
        errors,
        vec![
            old,
            ParserError::UnrecognizedToken { start: 6, end: 9 },
            ParserError::UnrecognizedToken { start: 26, end: 27 },
            ParserError::UnrecognizedToken { start: 50, end: 51 },
        ]
    );
    assert_eq!(count_errors(&ast), errors.len() - 1);
    // the first error is the one that ends the reading of a script that is to run
    assert_eq!(parse(script), Err(ParserError::UnrecognizedToken { start: 6, end: 9 }));
}

#[test]
fn parser_recovery_at_the_edges() {
    let read = |script: &str| {
        let mut errors = Vec::new();
        let ast = AIRParser::new().parse(script, &mut errors);
        (ast, errors)
    };
    // nothing at all, a stray token, and a bracket that closes nothing
    assert_eq!(read(""), (Ok(Instruction::Error), vec![ParserError::UnrecognizedEof { location: 0 }]));
    assert_eq!(read("x"), (Ok(Instruction::Error), vec![ParserError::UnrecognizedToken { start: 0, end: 1 }]));
    assert_eq!(read(")"), (Err(ParserError::ExtraToken { start: 0, end: 1 }), vec![]));
    // an instruction that is not closed takes all that follows it
    assert_eq!(
        read("(seq (null) (null"),
        (Ok(Instruction::Error), vec![ParserError::UnrecognizedEof { location: 17 }])
    );
    // an instruction that fails behind the instructions inside it is one error
    assert_eq!(
        read("(seq (nul) (null) x)"),
        (Ok(Instruction::Error), vec![ParserError::UnrecognizedToken { start: 18, end: 19 }])
    );
    // a side that is missing before the closing bracket
    assert_eq!(
        read("(seq )"),
        (
            Ok(Instruction::Sequence(Sequence(Box::new(Instruction::Error), Box::new(Instruction::Error)))),
            vec![
                ParserError::UnrecognizedToken { start: 5, end: 6 },
                ParserError::UnrecognizedToken { start: 5, end: 6 },
            ]
        )
    );
    assert_eq!(
        read("(match a b (oops (null)))"),
        (
            Ok(Instruction::Match(Match {
                left_value: variable("a"),
                right_value: variable("b"),
                instruction: Box::new(Instruction::Error),
            })),
            vec![ParserError::UnrecognizedToken { start: 12, end: 16 }]
        )
    );
    // a token behind the instruction and an error of the lexer end the reading
    assert_eq!(read("(null) x"), (Err(ParserError::ExtraToken { start: 7, end: 8 }), vec![]));
    assert_eq!(read("(nul) \"x"), (Err(ParserError::Lexer(LexerError::UnclosedQuote(6, 8))), vec![]));
}

#[test]
fn failed_merge_keeps_what_was_merged_before() {
    let aqua = Instruction::Null(Null);
    let prev = vec![par(1, 1), executed("1"), executed("2")];
    let current = vec![par(1, 1), executed("1"), executed("3")];
    let mut merger = TraceMerger::new(prev, current, &aqua);
    merger.result_trace.push(sent("kept"));
    assert!(merger.merge_subtree().is_err());
    assert_eq!(merger.result_trace[0], sent("kept"));
    assert_eq!(&merger.result_trace[1..], &[par(0, 0), executed("1")]);
}

#[test]
fn numbers_in_normal_form() {
    let float = |text: &str| JNumber::Float(String::from(text));
    let integer = |text: &str| integer_in_text(text);
    assert_eq!(integer("1.0"), Some(JNumber::PosInt(1)));
    assert_eq!(integer("1e2"), Some(JNumber::PosInt(100)));
    assert_eq!(integer("1E+2"), Some(JNumber::PosInt(100)));
    assert_eq!(integer("10e-1"), Some(JNumber::PosInt(1)));
    assert_eq!(integer("0.00001e5"), Some(JNumber::PosInt(1)));
    assert_eq!(integer("123.4500e2"), Some(JNumber::PosInt(12345)));
    assert_eq!(integer("120.0e-1"), Some(JNumber::PosInt(12)));
    assert_eq!(integer("-0.0"), Some(JNumber::PosInt(0)));
    assert_eq!(integer("0e99999999999999999999999999999999999999"), Some(JNumber::PosInt(0)));
    assert_eq!(integer("0.0e-99999999999999999999999999999999999999"), Some(JNumber::PosInt(0)));
    assert_eq!(integer("-7.0"), Some(JNumber::NegInt(-7)));
    assert_eq!(integer("1.8446744073709551615e19"), Some(JNumber::PosInt(u64::MAX)));
    assert_eq!(integer("18446744073709551615.0"), Some(JNumber::PosInt(u64::MAX)));
    assert_eq!(integer("-9223372036854775808.0"), Some(JNumber::NegInt(i64::MIN)));
    assert_eq!(integer("-9.223372036854775807e18"), Some(JNumber::NegInt(-i64::MAX)));
    // no integer, or none that an integer kind holds
    assert_eq!(integer("1.5"), None);
    assert_eq!(integer("10e-2"), None);
    assert_eq!(integer("1e-99999999999999999999999999999999999999"), None);
    assert_eq!(integer("1e20"), None);
    assert_eq!(integer("1e99999999999999999999999999999999999999"), None);
    assert_eq!(integer("18446744073709551616.0"), None);
    assert_eq!(integer("-9223372036854775809.0"), None);
    // not written as JSON writes a number
    for text in ["", "-", "01.0", "1.", ".5", "1e", "1e+", "e5", "1.0x", "1.0e5x", "+1.0", "1 .0"] {
        assert_eq!(integer(text), None, "{}", text);
    }
    assert_eq!(JNumber::PosInt(3).normalized(), JNumber::PosInt(3));
    assert_eq!(JNumber::NegInt(3).normalized(), JNumber::PosInt(3));
    assert_eq!(JNumber::NegInt(-3).normalized(), JNumber::NegInt(-3));
    assert_eq!(float("3.0").normalized(), JNumber::PosInt(3));
    assert_eq!(float("3.5").normalized(), float("3.5"));
    assert_eq!(float("three").normalized(), float("three"));
    let value = JValue::parse(r#"{"a":[1.0,{"b":-2.0,"c":2.5}],"d":"1.0","e":1e3}"#).unwrap();
    let normal = JValue::parse(r#"{"a":[1,{"b":-2,"c":2.5}],"d":"1.0","e":1000}"#).unwrap();
    assert!(!value.equals(&normal));
    assert_eq!(value.normalized(), normal);
    assert_eq!(normal.normalized(), normal);
}

#[test]
fn merge_drops_nothing() {
    let x = vec![par(1, 1), sent("a"), executed("1"), sent("c")];
    let y = vec![par(1, 2), executed("0"), sent("b"), executed("2")];
    let merged = merge(&x, &y).unwrap();
    assert_eq!(merged, vec![par(1, 2), executed("0"), executed("1"), executed("2"), sent("c")]);
    assert!(merged.len() >= x.len() && merged.len() >= y.len());
    assert!(is_well_formed(&merged));
}

#[test]
fn merge_either_way_round_gives_equal_values() {
    let x = vec![executed(r#"{"a":1,"b":[0.0]}"#), sent("p")];
    let y = vec![executed(r#"{"b":[-0.0],"a":1}"#), failed("late")];
    let xy = merge(&x, &y).unwrap();
    let yx = merge(&y, &x).unwrap();
    assert_eq!(xy, vec![x[0].clone(), failed("late")]);
    assert_eq!(yx, vec![y[0].clone(), failed("late")]);
    match (&xy[0], &yx[0]) {
        (ExecutedState::Call(CallResult::Executed(first)), ExecutedState::Call(CallResult::Executed(second))) => {
            assert!(first.equals(second));
            assert!(first != second);
        },
        _ => panic!("two values were merged"),
    }
}
