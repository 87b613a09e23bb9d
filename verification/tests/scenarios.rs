use stepper_lib::ast::{Call, CallArgValue, CallOutput, FunctionPart, Instruction, PeerPart};
use stepper_lib::call::{CallServiceResult, ExecutionTraceCtx};
use stepper_lib::codec::{decode_trace, encode_trace};
use stepper_lib::context::{
    AValue, ExecutionCtx, ExecutionError, FoldState, ResolvedCallResult, ResolvedTriplet,
};
use stepper_lib::engine::execute_instruction;
use stepper_lib::json::{JNumber, JValue};
use stepper_lib::outcome::{
    execute_aqua, StepperOutcome, EXECUTION_ERROR, PARSE_ERROR, SUCCESS, TRACE_DECODE_ERROR,
    TRACE_MERGE_ERROR,
};
use stepper_lib::parser::parse;
use stepper_lib::trace::{is_well_formed, CallResult, ExecutedState, ParResult};

fn echo_service(_service_id: String, function_name: String, _args: String) -> CallServiceResult {
    match function_name.as_str() {
        "bad" => CallServiceResult { ret_code: 1, result: String::from("err") },
        "good" => CallServiceResult { ret_code: 0, result: String::from("\"ok\"") },
        "number" => CallServiceResult { ret_code: 0, result: String::from("1") },
        "pair" => CallServiceResult { ret_code: 0, result: String::from("[1, 2]") },
        "not_json" => CallServiceResult { ret_code: 0, result: String::from("{oops") },
        _ => CallServiceResult { ret_code: 0, result: String::from("\"test\"") },
    }
}

fn args_service(_service_id: String, _function_name: String, args: String) -> CallServiceResult {
    CallServiceResult { ret_code: 0, result: args }
}

fn run(peer: &str, script: &str, prev: &str, current: &str) -> StepperOutcome {
    execute_aqua(
        String::from("init"),
        String::from(script),
        prev.as_bytes().to_vec(),
        current.as_bytes().to_vec(),
        String::from(peer),
        &echo_service,
    )
}

fn text(outcome: &StepperOutcome) -> String {
    String::from_utf8(outcome.data.clone()).unwrap()
}

fn peers(names: &[&str]) -> Vec<String> {
    names.iter().map(|name| String::from(*name)).collect()
}

#[test]
fn lone_call_first_hop() {
    let outcome = execute_aqua(
        String::from("A"),
        String::from(r#"(call "Relay1" ("identity" "") [] void1[])"#),
        Vec::new(),
        Vec::new(),
        String::from("A"),
        &echo_service,
    );
    assert_eq!(outcome.ret_code, SUCCESS);
    assert_eq!(outcome.error_message, "");
    assert_eq!(text(&outcome), r#"[{"call":{"request_sent_by":"A"}}]"#);
    assert_eq!(outcome.next_peer_pks, peers(&["Relay1"]));
}

#[test]
fn seq_progression() {
    let script = r#"(call "Relay1" ("identity" "") [] void1[])"#;
    let first = run("A", script, "", "");
    let second = run("Relay1", script, &text(&first), "");
    assert_eq!(second.ret_code, SUCCESS);
    assert_eq!(text(&second), r#"[{"call":{"executed":"test"}}]"#);
    assert_eq!(second.next_peer_pks, Vec::<String>::new());
}

#[test]
fn par_fan_out() {
    let script = r#"(par (call "P1" ("s" "f") [] x) (call "P2" ("s" "f") [] y))"#;
    let outcome = run("Z", script, "", "");
    assert_eq!(outcome.ret_code, SUCCESS);
    assert_eq!(
        text(&outcome),
        r#"[{"par":[1,1]},{"call":{"request_sent_by":"Z"}},{"call":{"request_sent_by":"Z"}}]"#
    );
    assert_eq!(outcome.next_peer_pks, peers(&["P1", "P2"]));
}

#[test]
fn fold_over_members() {
    let script = parse(r#"(fold members m (par (call m.$.[1] ("s" "f") [] v[]) (next m)))"#).unwrap();
    let members = JValue::parse(r#"[["A","R1"],["B","R2"]]"#).unwrap();
    let mut exec_ctx = ExecutionCtx::new(String::from("Z"), String::from("Z"));
    exec_ctx.data_cache.push((
        String::from("members"),
        AValue::JValueRef(ResolvedCallResult {
            result: members,
            triplet: ResolvedTriplet {
                peer_pk: String::from("Z"),
                service_id: String::from("s"),
                function_name: String::from("members"),
            },
        }),
    ));
    let mut trace_ctx = ExecutionTraceCtx::new(Vec::new());
    let met_folds: Vec<FoldState> = Vec::new();
    let result = execute_instruction(&script, &met_folds, &mut exec_ctx, &mut trace_ctx, &echo_service);
    assert_eq!(result, Ok(()));
    let sent = || ExecutedState::Call(CallResult::RequestSentBy(String::from("Z")));
    assert_eq!(
        trace_ctx.new_trace,
        vec![
            ExecutedState::Par(ParResult(1, 2)),
            sent(),
            ExecutedState::Par(ParResult(1, 0)),
            sent(),
        ]
    );
    assert!(is_well_formed(&trace_ctx.new_trace));
    assert_eq!(exec_ctx.next_peer_pks, peers(&["R1", "R2"]));
    assert!(!exec_ctx.subtree_complete);
}

#[test]
fn xor_recovery() {
    let script = r#"(xor (call "me" ("s" "bad") [] _) (call "me" ("s" "good") [] r))"#;
    let outcome = run("me", script, "", "");
    assert_eq!(outcome.ret_code, SUCCESS);
    assert_eq!(
        text(&outcome),
        r#"[{"call":{"call_service_failed":"err"}},{"call":{"executed":"ok"}}]"#
    );
    assert_eq!(outcome.next_peer_pks, Vec::<String>::new());
}

#[test]
fn merge_conflict() {
    let script = r#"(call "me" ("s" "f") [] x)"#;
    let prev = r#"[{"call":{"executed":"x"}}]"#;
    let current = r#"[{"call":{"executed":"y"}}]"#;
    let outcome = run("me", script, prev, current);
    assert_eq!(outcome.ret_code, TRACE_MERGE_ERROR);
    assert_eq!(
        outcome.error_message,
        r#"call results are incompatible: {"executed":"x"} and {"executed":"y"}"#
    );
    assert_eq!(text(&outcome), prev);
    assert_eq!(outcome.next_peer_pks, Vec::<String>::new());
}

#[test]
fn hop_on_its_own_output_changes_nothing() {
    let script = r#"
        (seq
            (par (call "me" ("s" "f") [] x) (call "other" ("s" "f") [] y))
            (xor (call "me" ("s" "bad") []) (call "me" ("s" "good") [] z))
        )"#;
    let first = run("me", script, "", "");
    assert_eq!(first.ret_code, SUCCESS);
    let second = run("me", script, &text(&first), "");
    assert_eq!(second, first);
    let third = run("me", script, &text(&first), &text(&first));
    assert_eq!(third, first);
}

#[test]
fn local_call_is_made_in_this_hop() {
    let script = r#"(call "me" ("s" "f") [] x)"#;
    let sent = r#"[{"call":{"request_sent_by":"other"}}]"#;
    let outcome = run("me", script, sent, "");
    assert_eq!(text(&outcome), r#"[{"call":{"executed":"test"}}]"#);
    assert_eq!(outcome.next_peer_pks, Vec::<String>::new());
}

#[test]
fn remote_request_is_kept_and_its_peer_named() {
    let script = r#"(call "far" ("s" "f") [] x)"#;
    let sent = r#"[{"call":{"request_sent_by":"other"}}]"#;
    let outcome = run("me", script, sent, "");
    assert_eq!(text(&outcome), sent);
    assert_eq!(outcome.next_peer_pks, peers(&["far"]));
}

#[test]
fn same_inputs_give_the_same_outcome() {
    let script = r#"(seq (call "me" ("s" "pair") [] x) (fold x i (par (call "p" ("s" "f") [i]) (next i))))"#;
    let first = run("me", script, "", "");
    let second = run("me", script, "", "");
    assert_eq!(first, second);
    assert_eq!(first.next_peer_pks, peers(&["p"]));
    assert_eq!(
        text(&first),
        r#"[{"call":{"executed":[1,2]}},{"par":[1,2]},{"call":{"request_sent_by":"me"}},{"par":[1,0]},{"call":{"request_sent_by":"me"}}]"#
    );
}

#[test]
fn arguments_go_to_the_service_as_a_json_array() {
    let script = r#"(seq (call "me" ("s" "f") ["a" %init_peer_id%] x) (call "me" ("s" "f") [x x.$.[0]] y))"#;
    let outcome = execute_aqua(
        String::from("init"),
        String::from(script),
        Vec::new(),
        Vec::new(),
        String::from("me"),
        &args_service,
    );
    assert_eq!(outcome.ret_code, SUCCESS, "{}", outcome.error_message);
    assert_eq!(
        text(&outcome),
        r#"[{"call":{"executed":["a","init"]}},{"call":{"executed":[["a","init"],["a"]]}}]"#
    );
}

#[test]
fn service_id_of_the_function_part_is_preferred() {
    let service = |service_id: String, function_name: String, _: String| CallServiceResult {
        ret_code: 0,
        result: JValue::String(format!("{}/{}", service_id, function_name)).to_text(),
    };
    let run_call = |script: &str| {
        let outcome = execute_aqua(
            String::from("init"),
            String::from(script),
            Vec::new(),
            Vec::new(),
            String::from("me"),
            &service,
        );
        String::from_utf8(outcome.data).unwrap()
    };
    assert_eq!(run_call(r#"(call ("me" "s1") ("s2" "f") [])"#), r#"[{"call":{"executed":"s2/f"}}]"#);
    assert_eq!(run_call(r#"(call ("me" "s1") "f" [])"#), r#"[{"call":{"executed":"s1/f"}}]"#);
    assert_eq!(run_call(r#"(call "me" ("s2" "f") [])"#), r#"[{"call":{"executed":"s2/f"}}]"#);
}

#[test]
fn match_and_mismatch() {
    let script = r#"
        (seq
            (call "me" ("s" "good") [] x)
            (seq
                (match x "ok" (call "me" ("s" "f") [] a))
                (seq
                    (mismatch x "ok" (call "me" ("s" "f") [] b))
                    (match x "no" (call "me" ("s" "f") [] c))
                )
            )
        )"#;
    let outcome = run("me", script, "", "");
    assert_eq!(outcome.ret_code, SUCCESS, "{}", outcome.error_message);
    assert_eq!(text(&outcome), r#"[{"call":{"executed":"ok"}},{"call":{"executed":"test"}}]"#);
}

#[test]
fn match_compares_json_values() {
    let service = |_: String, function_name: String, _: String| CallServiceResult {
        ret_code: 0,
        result: match function_name.as_str() {
            "first" => String::from(r#"{"a":1,"b":[0.0]}"#),
            "second" => String::from(r#"{"b":[-0.0],"a":1}"#),
            _ => String::from("null"),
        },
    };
    let script = r#"
        (seq
            (call "me" ("s" "first") [] x)
            (seq
                (call "me" ("s" "second") [] y)
                (seq
                    (match x y (call "me" ("s" "equal") []))
                    (mismatch x y (call "me" ("s" "unequal") []))
                )
            )
        )"#;
    let outcome = execute_aqua(
        String::from("init"),
        String::from(script),
        Vec::new(),
        Vec::new(),
        String::from("me"),
        &service,
    );
    assert_eq!(outcome.ret_code, SUCCESS, "{}", outcome.error_message);
    assert_eq!(
        text(&outcome),
        r#"[{"call":{"executed":{"a":1,"b":[0.0]}}},{"call":{"executed":{"b":[-0.0],"a":1}}},{"call":{"executed":null}}]"#
    );
}

#[test]
fn match_takes_numbers_in_their_normal_form() {
    let service = |_: String, function_name: String, _: String| CallServiceResult {
        ret_code: 0,
        result: match function_name.as_str() {
            "first" => String::from(r#"[1,-2,1e3,0.5]"#),
            "second" => String::from(r#"[1.0,-2.0,1000,0.5]"#),
            "third" => String::from(r#"[1.0,-2.0,1000,0.25]"#),
            _ => String::from("null"),
        },
    };
    let script = r#"
        (seq
            (call "me" ("s" "first") [] x)
            (seq
                (call "me" ("s" "second") [] y)
                (seq
                    (call "me" ("s" "third") [] z)
                    (seq
                        (match x y (call "me" ("s" "equal") []))
                        (seq
                            (mismatch x y (call "me" ("s" "unequal") []))
                            (match y z (call "me" ("s" "unequal") []))
                        )
                    )
                )
            )
        )"#;
    let outcome = execute_aqua(
        String::from("init"),
        String::from(script),
        Vec::new(),
        Vec::new(),
        String::from("me"),
        &service,
    );
    assert_eq!(outcome.ret_code, SUCCESS, "{}", outcome.error_message);
    assert_eq!(
        text(&outcome),
        r#"[{"call":{"executed":[1,-2,1000.0,0.5]}},{"call":{"executed":[1.0,-2.0,1000,0.5]}},{"call":{"executed":[1.0,-2.0,1000,0.25]}},{"call":{"executed":null}}]"#
    );
}

#[test]
fn merge_keeps_values_that_are_equal_as_json() {
    let script = r#"(call "me" ("s" "f") [] x)"#;
    let prev = r#"[{"call":{"executed":{"a":1,"b":2}}}]"#;
    let current = r#"[{"call":{"executed":{"b":2,"a":1}}}]"#;
    let outcome = run("me", script, prev, current);
    assert_eq!(outcome.ret_code, SUCCESS, "{}", outcome.error_message);
    assert_eq!(text(&outcome), prev);
}

#[test]
fn accumulator_keeps_the_order_of_the_calls() {
    let script = r#"
        (seq
            (call "me" ("s" "good") [] acc[])
            (seq
                (call "me" ("s" "number") [] acc[])
                (call "me" ("args" "f") [acc] out)
            )
        )"#;
    let outcome = execute_aqua(
        String::from("init"),
        String::from(script),
        Vec::new(),
        Vec::new(),
        String::from("me"),
        &|service_id: String, function_name: String, args: String| {
            if service_id == "args" {
                args_service(service_id, function_name, args)
            } else {
                echo_service(service_id, function_name, args)
            }
        },
    );
    assert_eq!(outcome.ret_code, SUCCESS, "{}", outcome.error_message);
    assert_eq!(
        text(&outcome),
        r#"[{"call":{"executed":"ok"}},{"call":{"executed":1}},{"call":{"executed":[["ok",1]]}}]"#
    );
}

#[test]
fn scalar_shadowing_is_allowed_only_inside_a_fold() {
    let outside = r#"(seq (call "me" ("s" "f") [] x) (call "me" ("s" "f") [] x))"#;
    let outcome = run("me", outside, "", "");
    assert_eq!(outcome.ret_code, EXECUTION_ERROR);
    assert_eq!(outcome.error_message, "multiple variables found for name: x");
    // the call was made: its result stays in the trace
    assert_eq!(text(&outcome), r#"[{"call":{"executed":"test"}},{"call":{"executed":"test"}}]"#);
    let again = run("me", outside, &text(&outcome), "");
    assert_eq!(again, outcome);

    let inside = r#"
        (seq
            (call "me" ("s" "pair") [] items)
            (fold items i (seq (call "me" ("s" "f") [] x) (next i)))
        )"#;
    let outcome = run("me", inside, "", "");
    assert_eq!(outcome.ret_code, SUCCESS, "{}", outcome.error_message);
    assert_eq!(
        text(&outcome),
        r#"[{"call":{"executed":[1,2]}},{"call":{"executed":"test"}},{"call":{"executed":"test"}}]"#
    );
}

#[test]
fn execution_errors() {
    let cases = [
        (r#"(call x ("s" "f") [])"#, "variable not found: x"),
        (r#"(call "me" "f" [])"#, "call should have service id specified by peer part or function part"),
        (r#"(seq (call "me" ("s" "number") [] x) (call x ("s" "f") []))"#, "expected a json string, got: 1"),
        (
            r#"(seq (call "me" ("s" "pair") [] x) (call x.$.[*] ("s" "f") []))"#,
            "multiple values found for json path: $.[*]",
        ),
        (r#"(seq (call "me" ("s" "pair") [] x) (call x.$.[7] ("s" "f") []))"#, "variable not found: $.[7]"),
        (r#"(next m)"#, "fold state not found for iterator: m"),
        (r#"(seq (call "me" ("s" "good") [] x) (fold x i (null)))"#, "the iterable is not an array: x"),
        (r#"(call "me" ("s" "bad") [])"#, "local service error: err"),
        (r#"(call "me" ("s" "not_json") [])"#, "local service error: {oops"),
        (
            r#"(seq (call "me" ("s" "good") [] x) (call "me" ("s" "f") [] x[]))"#,
            "expected a json array, got: \"ok\"",
        ),
        (
            r#"(seq (call "me" ("s" "pair") [] x) (fold x x (null)))"#,
            "multiple variables found for name: x",
        ),
    ];
    for (script, message) in cases {
        let outcome = run("me", script, "", "");
        assert_eq!(outcome.ret_code, EXECUTION_ERROR, "{}", script);
        assert_eq!(outcome.error_message, message, "{}", script);
    }
}

#[test]
fn json_path_that_is_not_plain_is_an_error() {
    let call = Instruction::Call(Call {
        peer_part: PeerPart::PeerPk(CallArgValue::JsonPath {
            variable: String::from("x"),
            path: String::from("$[?(@.a)]"),
        }),
        function_part: FunctionPart::ServiceIdWithFuncName(
            CallArgValue::Literal(String::from("s")),
            CallArgValue::Literal(String::from("f")),
        ),
        args: vec![],
        output: CallOutput::Discard,
    });
    let mut exec_ctx = ExecutionCtx::new(String::from("me"), String::from("me"));
    exec_ctx.data_cache.push((
        String::from("x"),
        AValue::JValueRef(ResolvedCallResult {
            result: JValue::Number(JNumber::PosInt(1)),
            triplet: ResolvedTriplet {
                peer_pk: String::from("me"),
                service_id: String::from("s"),
                function_name: String::from("f"),
            },
        }),
    ));
    let mut trace_ctx = ExecutionTraceCtx::new(Vec::new());
    let met_folds: Vec<FoldState> = Vec::new();
    let result = execute_instruction(&call, &met_folds, &mut exec_ctx, &mut trace_ctx, &echo_service);
    assert_eq!(
        result,
        Err(ExecutionError::JValueJsonPathError(
            JValue::Number(JNumber::PosInt(1)),
            String::from("$[?(@.a)]"),
            String::from("a json path may hold only $ . [ ] * _ - letters and digits"),
        ))
    );
    assert!(trace_ctx.new_trace.is_empty());
}

#[test]
fn trace_that_does_not_fit_the_script() {
    let script = r#"(call "me" ("s" "f") [])"#;
    let outcome = run("me", script, r#"[{"par":[0,0]}]"#, "");
    assert_eq!(outcome.ret_code, EXECUTION_ERROR);
    assert_eq!(outcome.error_message, "the trace does not fit the script");

    let script = r#"(par (null) (null))"#;
    let outcome = run("me", script, r#"[{"call":{"executed":1}}]"#, "");
    assert_eq!(outcome.ret_code, EXECUTION_ERROR);
    assert_eq!(outcome.error_message, "the trace does not fit the script");
}

#[test]
fn failure_in_a_par_keeps_the_trace_well_formed() {
    let script = r#"(par (seq (call "me" ("s" "f") []) (call "me" ("s" "bad") [])) (call "me" ("s" "f") []))"#;
    let outcome = run("me", script, "", "");
    assert_eq!(outcome.ret_code, EXECUTION_ERROR);
    assert_eq!(
        text(&outcome),
        r#"[{"par":[2,0]},{"call":{"executed":"test"}},{"call":{"call_service_failed":"err"}}]"#
    );
    assert!(is_well_formed(&decode_trace(&outcome.data).unwrap()));
}

#[test]
fn parse_and_decode_failures() {
    let outcome = run("me", "(call", "[]", "");
    assert_eq!(outcome.ret_code, PARSE_ERROR);
    assert_eq!(outcome.error_message, "the script ends where a token is needed at 5");
    assert_eq!(text(&outcome), "[]");

    let outcome = run("me", r#"(seq (null) "x)"#, "", "");
    assert_eq!(outcome.ret_code, PARSE_ERROR);
    assert_eq!(outcome.error_message, "this string literal has unclosed quote at 12");

    let outcome = run("me", "(null)", "{", "");
    assert_eq!(outcome.ret_code, TRACE_DECODE_ERROR);
    assert_eq!(outcome.error_message, "the previous trace cannot be decoded");

    let outcome = run("me", "(null)", "", r#"[{"par":[1,0]}]"#);
    assert_eq!(outcome.ret_code, TRACE_DECODE_ERROR);
    assert_eq!(outcome.error_message, "the current trace cannot be decoded");

    let outcome = execute_aqua(
        String::from("init"),
        String::from("(null)"),
        vec![0xff, 0xfe],
        Vec::new(),
        String::from("me"),
        &echo_service,
    );
    assert_eq!(outcome.ret_code, TRACE_DECODE_ERROR);
    assert_eq!(outcome.data, vec![0xff, 0xfe]);
}

#[test]
fn trace_codec_round_trip() {
    let trace = vec![
        ExecutedState::Par(ParResult(2, 1)),
        ExecutedState::Call(CallResult::Executed(JValue::parse(r#"{"k":[true,null,-2,1.5]}"#).unwrap())),
        ExecutedState::Call(CallResult::RequestSentBy(String::from("p"))),
        ExecutedState::Call(CallResult::CallServiceFailed(String::from("m"))),
    ];
    let bytes = encode_trace(&trace);
    assert_eq!(
        String::from_utf8(bytes.clone()).unwrap(),
        r#"[{"par":[2,1]},{"call":{"executed":{"k":[true,null,-2,1.5]}}},{"call":{"request_sent_by":"p"}},{"call":{"call_service_failed":"m"}}]"#
    );
    assert_eq!(decode_trace(&bytes), Some(trace));
    assert_eq!(decode_trace(&Vec::new()), Some(Vec::new()));
    assert_eq!(decode_trace(&b"[{\"call\":{\"request_sent_by\":1}}]".to_vec()), None);
    assert_eq!(decode_trace(&b"[{\"par\":[1,-1]}]".to_vec()), None);
    assert_eq!(decode_trace(&b"[{\"call\":{\"executed\":1},\"par\":[0,0]}]".to_vec()), None);
}

#[test]
fn json_path_that_the_path_engine_rejects() {
    let script = r#"(seq (call "me" ("s" "pair") [] x) (call x.a ("s" "f") []))"#;
    let outcome = run("me", script, "", "");
    assert_eq!(outcome.ret_code, EXECUTION_ERROR);
    assert!(
        outcome.error_message.starts_with("json path a cannot be applied to [1,2]: "),
        "{}",
        outcome.error_message
    );
    assert_eq!(text(&outcome), r#"[{"call":{"executed":[1,2]}}]"#);
}

#[test]
fn script_with_an_error_in_it_does_not_run() {
    let mut exec_ctx = ExecutionCtx::new(String::from("me"), String::from("me"));
    let mut trace_ctx = ExecutionTraceCtx::new(Vec::new());
    let met_folds: Vec<FoldState> = Vec::new();
    let result =
        execute_instruction(&Instruction::Error, &met_folds, &mut exec_ctx, &mut trace_ctx, &echo_service);
    assert_eq!(
        result,
        Err(ExecutionError::InstructionError(String::from("the script holds an error")))
    );
}

#[test]
fn next_goes_through_the_items_of_its_fold() {
    let script = r#"
        (seq
            (call "me" ("s" "pair") [] items)
            (fold items i
                (seq
                    (call "me" ("args" "f") [i] seen[])
                    (seq (next i) (call "me" ("args" "f") [i] back[]))
                )
            )
        )"#;
    let outcome = execute_aqua(
        String::from("init"),
        String::from(script),
        Vec::new(),
        Vec::new(),
        String::from("me"),
        &|service_id: String, function_name: String, args: String| {
            if service_id == "args" {
                args_service(service_id, function_name, args)
            } else {
                echo_service(service_id, function_name, args)
            }
        },
    );
    assert_eq!(outcome.ret_code, SUCCESS, "{}", outcome.error_message);
    assert_eq!(
        text(&outcome),
        format!(
            "{}{}{}",
            r#"[{"call":{"executed":[1,2]}},"#,
            r#"{"call":{"executed":[1]}},{"call":{"executed":[2]}},"#,
            r#"{"call":{"executed":[2]}},{"call":{"executed":[1]}}]"#
        )
    );
}

#[test]
fn fold_over_nothing_does_nothing() {
    let service = |_: String, _: String, _: String| CallServiceResult {
        ret_code: 0,
        result: String::from("[]"),
    };
    let script = r#"(seq (call "me" ("s" "f") [] items) (seq (fold items i (call "far" ("s" "f") [])) (call "me" ("s" "f") [])))"#;
    let outcome = execute_aqua(
        String::from("init"),
        String::from(script),
        Vec::new(),
        Vec::new(),
        String::from("me"),
        &service,
    );
    assert_eq!(outcome.ret_code, SUCCESS, "{}", outcome.error_message);
    assert_eq!(text(&outcome), r#"[{"call":{"executed":[]}},{"call":{"executed":[]}}]"#);
    assert_eq!(outcome.next_peer_pks, Vec::<String>::new());
}

#[test]
fn peers_are_named_once_in_the_order_they_are_met() {
    let script = r#"
        (par
            (par (call "b" ("s" "f") []) (call "a" ("s" "f") []))
            (par (call "b" ("s" "f") []) (par (call "c" ("s" "f") []) (call "a" ("s" "f") [])))
        )"#;
    let outcome = run("me", script, "", "");
    assert_eq!(outcome.ret_code, SUCCESS);
    assert_eq!(outcome.next_peer_pks, peers(&["b", "a", "c"]));
}

#[test]
fn hop_on_an_instruction_and_two_traces() {
    let script = parse(r#"(seq (call "me" ("s" "f") [] x) (call "far" ("s" "f") [x] y))"#).unwrap();
    let sent = |peer: &str| ExecutedState::Call(CallResult::RequestSentBy(String::from(peer)));
    let executed = |text: &str| ExecutedState::Call(CallResult::Executed(JValue::parse(text).unwrap()));
    let outcome = stepper_lib::outcome::execute(
        &script,
        vec![sent("far")],
        vec![],
        String::from("init"),
        String::from("me"),
        &echo_service,
    );
    assert_eq!(outcome.ret_code, SUCCESS);
    assert_eq!(decode_trace(&outcome.data), Some(vec![executed("\"test\""), sent("me")]));
    assert_eq!(outcome.next_peer_pks, peers(&["far"]));

    let outcome = stepper_lib::outcome::execute(
        &script,
        vec![executed("1"), sent("a")],
        vec![executed("1"), sent("b")],
        String::from("init"),
        String::from("me"),
        &echo_service,
    );
    assert_eq!(outcome.ret_code, TRACE_MERGE_ERROR);
    assert_eq!(
        outcome.error_message,
        r#"call results are incompatible: {"request_sent_by":"a"} and {"request_sent_by":"b"}"#
    );
    assert_eq!(decode_trace(&outcome.data), Some(vec![executed("1"), sent("a")]));

    let outcome = stepper_lib::outcome::execute(
        &script,
        vec![sent("a")],
        vec![ExecutedState::Par(ParResult(0, 0))],
        String::from("init"),
        String::from("me"),
        &echo_service,
    );
    assert_eq!(outcome.ret_code, TRACE_MERGE_ERROR);
    assert_eq!(
        outcome.error_message,
        r#"executed states are incompatible: {"call":{"request_sent_by":"a"}} and {"par":[0,0]}"#
    );
}
