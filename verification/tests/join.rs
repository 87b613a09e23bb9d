use stepper_lib::call::CallServiceResult;
use stepper_lib::json::JValue;
use stepper_lib::outcome::{execute_aqua, StepperOutcome};

fn unit_call_service(_service_id: String, _function_name: String, _args: String) -> CallServiceResult {
    CallServiceResult { ret_code: 0, result: String::from("\"test\"") }
}

fn call_vm<F: Fn(String, String, String) -> CallServiceResult>(
    call_service: &F,
    current_peer_id: &str,
    init_peer_id: &str,
    script: &str,
    prev_data: &[u8],
    data: &[u8],
) -> StepperOutcome {
    let outcome = execute_aqua(
        String::from(init_peer_id),
        String::from(script),
        prev_data.to_vec(),
        data.to_vec(),
        String::from(current_peer_id),
        call_service,
    );
    assert_eq!(outcome.ret_code, 0, "{}", outcome.error_message);
    outcome
}

fn json_of(data: &[u8]) -> JValue {
    let text = std::str::from_utf8(data).expect("stepper should return valid json");
    JValue::parse(text).expect("stepper should return valid json")
}

fn json(text: &str) -> JValue {
    JValue::parse(text).expect("the expected value should be valid json")
}

fn peers(names: &[&str]) -> Vec<String> {
    names.iter().map(|name| String::from(*name)).collect()
}

#[test]
fn join_chat() {
    let members_call_service1 = |_: String, _: String, _: String| CallServiceResult {
        ret_code: 0,
        result: String::from(r#"[["A", "Relay1"], ["B", "Relay2"]]"#),
    };

    let script = r#"
            (seq
                (call "Relay1" ("identity" "") [] void1[])
                (seq
                    (call "Remote" ("552196ea-b9b2-4761-98d4-8e7dba77fac4" "add") [] void2[])
                    (seq
                        (call "Remote" ("920e3ba3-cbdf-4ae3-8972-0fa2f31fffd9" "get_users") [] members)
                        (fold members m
                            (par 
                                (seq
                                    (call m.$.[1] ("identity" "") [] void[])
                                    (call m.$.[0] ("fgemb3" "add") [] void3[])
                                )
                                (next m)
                            )
                        )
                    )
                )
            )
        "#;

    let client_1_res = call_vm(&unit_call_service, "A", "asd", script, b"[]", b"[]");

    let client_1_res_json = json_of(&client_1_res.data);

    let client_1_expected_json = json(r#"[
        { "call": {"request_sent_by": "A" } }
    ]"#);

    assert_eq!(client_1_res_json, client_1_expected_json);
    assert_eq!(client_1_res.next_peer_pks, vec![String::from("Relay1")]);

    let relay_1_res = call_vm(&unit_call_service, "Relay1", "asd", script, &client_1_res.data, b"[]");

    let relay_1_res_json = json_of(&relay_1_res.data);

    let relay_1_expected_json = json(r#"[
        { "call": { "executed" : "test" } },
        { "call": { "request_sent_by": "Relay1" } }
    ]"#);

    assert_eq!(relay_1_res_json, relay_1_expected_json);
    assert_eq!(relay_1_res.next_peer_pks, vec![String::from("Remote")]);

    let remote_res = call_vm(&members_call_service1, "Remote", "asd", script, &relay_1_res.data, b"[]");

    let remote_res_json = json_of(&remote_res.data);

    let remote_expected_json = json(r#"[
        { "call": { "executed" : "test" } },
        { "call": { "executed" : [["A", "Relay1"], ["B", "Relay2"]]} },
        { "call": { "executed" : [["A", "Relay1"], ["B", "Relay2"]]} },
        { "par": [1, 2] },
        { "call": { "request_sent_by" : "Remote" } },
        { "par": [1, 0] },
        { "call": { "request_sent_by" : "Remote" } }
    ]"#);

    let remote_res_next_peer_pks: std::collections::HashSet<&str> =
        remote_res.next_peer_pks.iter().map(|s| s.as_str()).collect();
    let next_peer_pks_right: std::collections::HashSet<&str> = ["Relay1", "Relay2"].into_iter().collect();

    assert_eq!(remote_res_json, remote_expected_json);
    assert_eq!(remote_res_next_peer_pks, next_peer_pks_right);

    let relay_1_res = call_vm(&unit_call_service, "Relay1", "asd", script, &remote_res.data, b"[]");

    let relay_1_res_json = json_of(&relay_1_res.data);

    let relay_1_expected_json = json(r#"[
        { "call": { "executed" : "test" } },
        { "call": { "executed" : [["A", "Relay1"], ["B", "Relay2"]]} },
        { "call": { "executed" : [["A", "Relay1"], ["B", "Relay2"]]} },
        { "par": [2, 2] },
        { "call": { "executed" : "test" } },
        { "call": { "request_sent_by" : "Relay1" } },
        { "par": [1, 0] },
        { "call": { "request_sent_by" : "Remote" } }
    ]"#);

    assert_eq!(relay_1_res_json, relay_1_expected_json);
    // the call that still waits for Relay2 names Relay2 as well
    assert_eq!(relay_1_res.next_peer_pks, peers(&["A", "Relay2"]));

    let client_1_res = call_vm(&unit_call_service, "A", "asd", script, &relay_1_res.data, b"[]");

    let client_1_res_json = json_of(&client_1_res.data);

    let client_1_expected_json = json(r#"[
        { "call": { "executed" : "test" } },
        { "call": { "executed" : [["A", "Relay1"], ["B", "Relay2"]]} },
        { "call": { "executed" : [["A", "Relay1"], ["B", "Relay2"]]} },
        { "par": [2, 2] },
        { "call": { "executed" : "test" } },
        { "call": { "executed" : "test" } },
        { "par": [1, 0] },
        { "call": { "request_sent_by" : "Remote" } }
    ]"#);

    assert_eq!(client_1_res_json, client_1_expected_json);
    assert_eq!(client_1_res.next_peer_pks, peers(&["Relay2"]));

    let relay_2_res = call_vm(&unit_call_service, "Relay2", "asd", script, &remote_res.data, b"[]");

    let relay_2_res_json = json_of(&relay_2_res.data);

    let relay_2_expected_json = json(r#"[
        { "call": { "executed" : "test" } },
        { "call": { "executed" : [["A", "Relay1"], ["B", "Relay2"]]} },
        { "call": { "executed" : [["A", "Relay1"], ["B", "Relay2"]]} },
        { "par": [1, 3] },
        { "call": { "request_sent_by" : "Remote" } },
        { "par": [2, 0] },
        { "call": { "executed" : "test" } },
        { "call": { "request_sent_by" : "Relay2" } }
    ]"#);

    assert_eq!(relay_2_res_json, relay_2_expected_json);
    assert_eq!(relay_2_res.next_peer_pks, peers(&["Relay1", "B"]));

    let client_2_res = call_vm(&unit_call_service, "B", "asd", script, &relay_2_res.data, b"[]");

    let client_2_res_json = json_of(&client_2_res.data);

    let client_2_expected_json = json(r#"[
        { "call": { "executed" : "test" } },
        { "call": { "executed" : [["A", "Relay1"], ["B", "Relay2"]]} },
        { "call": { "executed" : [["A", "Relay1"], ["B", "Relay2"]]} },
        { "par": [1, 3] },
        { "call": { "request_sent_by" : "Remote" } },
        { "par": [2, 0] },
        { "call": { "executed" : "test" } },
        { "call": { "executed" : "test" } }
    ]"#);

    assert_eq!(client_2_res_json, client_2_expected_json);
    assert_eq!(client_2_res.next_peer_pks, peers(&["Relay1"]));
}

#[test]
fn join() {
    let members_call_service1 = |_: String, _: String, _: String| CallServiceResult {
        ret_code: 0,
        result: String::from(r#"[["A"], ["B"]]"#),
    };

    let script = r#"
            (seq
                (call "Relay1" ("identity" "") [] void1[])
                (seq
                    (call "Remote" ("920e3ba3-cbdf-4ae3-8972-0fa2f31fffd9" "get_users") [] members)
                    (fold members m
                        (par 
                            (seq
                                (call "Relay1" ("identity" "") [] void[])
                                (call "A" ("fgemb3" "add") [m] void3[])
                            )
                            (next m)
                        )
                    )
                )
            )
        "#;

    let client_1_res = call_vm(&unit_call_service, "A", "asd", script, b"[]", b"[]");
    let relay_1_res = call_vm(&unit_call_service, "Relay1", "asd", script, &client_1_res.data, b"[]");
    let remote_res = call_vm(&members_call_service1, "Remote", "asd", script, &relay_1_res.data, b"[]");
    let relay_1_res = call_vm(&unit_call_service, "Relay1", "asd", script, &remote_res.data, b"[]");
    let client_1_res = call_vm(&unit_call_service, "A", "asd", script, &relay_1_res.data, b"[]");

    let client_1_res_json = json_of(&client_1_res.data);

    let client_1_expected_json = json(r#"[
        { "call": { "executed" : "test" } },
        { "call": { "executed" : [["A"], ["B"]]} },
        { "par": [2, 3] },
        { "call": { "executed" : "test" } },
        { "call": { "executed" : "test" } },
        { "par": [2, 0] },
        { "call": { "executed" : "test" } },
        { "call": { "executed" : "test" } }
    ]"#);

    assert_eq!(client_1_res_json, client_1_expected_json);
    assert_eq!(client_1_res.next_peer_pks, Vec::<String>::new());
}

#[test]
fn init_peer_id() {
    let members_call_service1 = |_: String, _: String, _: String| CallServiceResult {
        ret_code: 0,
        result: String::from(r#"[["A"], ["B"]]"#),
    };

    let initiator_peer_id = "initiator";

    let script = r#"(seq
                (seq
                    (call "Relay1" ("identity" "") [])
                    (seq
                        (call "Remote" ("920e3ba3-cbdf-4ae3-8972-0fa2f31fffd9" "get_users") [] members)
                        (fold members m
                            (par
                                (seq
                                    (call "Relay1" ("identity" "") [])
                                    (call "A" ("fgemb3" "add") [m])
                                )
                                (next m)
                            )
                        )
                    )
                )
                (call %init_peer_id% ("identity" "") [])
            )
        "#;

    let initiator_1_res = call_vm(&unit_call_service, initiator_peer_id, initiator_peer_id, script, b"", b"");
    let client_1_res = call_vm(&unit_call_service, "A", initiator_peer_id, script, &initiator_1_res.data, b"");
    let relay_1_res = call_vm(&unit_call_service, "Relay1", initiator_peer_id, script, &client_1_res.data, b"");
    let remote_res = call_vm(&members_call_service1, "Remote", initiator_peer_id, script, &relay_1_res.data, b"");
    let relay_1_res = call_vm(&unit_call_service, "Relay1", initiator_peer_id, script, &remote_res.data, b"");
    let client_1_res = call_vm(&unit_call_service, "A", initiator_peer_id, script, &relay_1_res.data, b"");

    let client_1_res_json = json_of(&client_1_res.data);

    let client_1_expected_json = json(r#"[
        { "call": { "executed" : "test" } },
        { "call": { "executed" : [["A"], ["B"]]} },
        { "par": [2, 3] },
        { "call": { "executed" : "test" } },
        { "call": { "executed" : "test" } },
        { "par": [2, 0] },
        { "call": { "executed" : "test" } },
        { "call": { "executed" : "test" } },
        { "call": { "request_sent_by" : "A" } }
    ]"#);

    assert_eq!(client_1_res_json, client_1_expected_json);
    assert_eq!(client_1_res.next_peer_pks, vec![String::from(initiator_peer_id)]);

    let initiator_1_res = call_vm(
        &unit_call_service,
        initiator_peer_id,
        initiator_peer_id,
        script,
        &client_1_res.data,
        b"",
    );

    let initiator_1_res_json = json_of(&initiator_1_res.data);

    let initiator_1_expected_json = json(r#"[
        { "call": { "executed" : "test" } },
        { "call": { "executed" : [["A"], ["B"]]} },
        { "par": [2, 3] },
        { "call": { "executed" : "test" } },
        { "call": { "executed" : "test" } },
        { "par": [2, 0] },
        { "call": { "executed" : "test" } },
        { "call": { "executed" : "test" } },
        { "call": { "executed" : "test" } }
    ]"#);

    assert_eq!(initiator_1_res_json, initiator_1_expected_json);
    assert_eq!(initiator_1_res.next_peer_pks, Vec::<String>::new());
}
