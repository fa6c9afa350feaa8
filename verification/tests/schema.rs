use protocol_schema::entry::{Command, Entry, ErrorResponse, ProtocolEntry, Response};
use protocol_schema::error::{Fault, LoadError};
use protocol_schema::json::Json;
use protocol_schema::protocol::RyderProtocol;
use protocol_schema::schema::{Category, Field};

const COMMANDS: &str =
    "key,name,code,description,implemented,user_confirm,send_input,enabled,temporary\n\
INFO,info,1,device info,true,false,,true,false\n\
WAKE,wake,2,\"wake up, now\",,,,,true\n";

const ERRORS: &str = "key,name,code,description,implemented\n\
E_UNKNOWN,unknown,255,unknown error,\n";

const RESPONSES: &str = "key,name,code,description,implemented,initial_response\n\
OK,ok,1,all \"fine\",true,true\n\
OK,ok2,3,replaced,false,\n";

fn sample() -> RyderProtocol {
    RyderProtocol::from_sources(COMMANDS.as_bytes(), ERRORS.as_bytes(), RESPONSES.as_bytes())
        .unwrap()
}

#[test]
fn assembly_holds_each_category() {
    let p = sample();
    assert_eq!(p.commands.len(), 2);
    assert_eq!(p.errors.len(), 1);
    assert_eq!(p.responses.len(), 2);
    assert_eq!(p.commands.map().len(), 2);
    assert_eq!(p.errors.map().len(), 1);
    assert_eq!(p.responses.map().len(), 1);
    assert_eq!(p.commands.get("WAKE").unwrap().entry.description, "wake up, now");
    assert_eq!(p.errors.get("E_UNKNOWN").unwrap().entry.code, 255);
    assert_eq!(p.responses.get("OK").unwrap().entry.name, "ok2");
    assert_eq!(p.responses.list()[0].entry.name, "ok");
}

#[test]
fn assembly_of_empty_tables_succeeds() {
    let p = RyderProtocol::from_sources(
        b"key,name,code,description,temporary\n",
        b"key,name,code,description\n",
        b"key,name,code,description\n",
    )
    .unwrap();
    assert_eq!(p.commands.len(), 0);
    assert_eq!(p.commands.map().len(), 0);
    assert_eq!(p.errors.len(), 0);
    assert_eq!(p.responses.len(), 0);
    let text = p.to_json_text().unwrap();
    assert_eq!(
        text,
        "{\n  \"commands\": {},\n  \"commands_list\": [],\n  \"errors\": {},\n  \
\"errors_list\": [],\n  \"responses\": {},\n  \"responses_list\": []\n}"
    );
}

#[test]
fn first_failing_category_gives_the_error() {
    let bad_commands = "key,name,code,description,temporary\nC,c,1,d,maybe\n";
    let bad_errors = "key,name,description\n";
    let bad_responses = "key,name,code,description\nR,r,300,d\n";
    let r = RyderProtocol::from_sources(
        bad_commands.as_bytes(),
        bad_errors.as_bytes(),
        bad_responses.as_bytes(),
    );
    assert_eq!(
        r.err(),
        Some(LoadError {
            table: Category::Commands,
            row: Some(0),
            fault: Fault::InvalidValue(Field::Temporary),
        })
    );
    let r = RyderProtocol::from_sources(
        COMMANDS.as_bytes(),
        bad_errors.as_bytes(),
        bad_responses.as_bytes(),
    );
    assert_eq!(
        r.err(),
        Some(LoadError {
            table: Category::Errors,
            row: None,
            fault: Fault::MissingField(Field::Code),
        })
    );
    let r =
        RyderProtocol::from_sources(COMMANDS.as_bytes(), ERRORS.as_bytes(), bad_responses.as_bytes());
    assert_eq!(
        r.err(),
        Some(LoadError {
            table: Category::Responses,
            row: Some(0),
            fault: Fault::InvalidValue(Field::Code),
        })
    );
}

#[test]
fn missing_temporary_column_produces_no_document() {
    let commands = "key,name,code,description\nC,c,1,d\n";
    let r = RyderProtocol::from_sources(commands.as_bytes(), ERRORS.as_bytes(), RESPONSES.as_bytes());
    match r {
        Ok(_) => panic!("a document was produced"),
        Err(e) => {
            assert_eq!(e.table, Category::Commands);
            assert_eq!(e.fault, Fault::MissingField(Field::Temporary));
        }
    }
}

#[test]
fn loading_twice_gives_the_same_document() {
    let a = sample();
    let b = sample();
    assert_eq!(a.commands.list(), b.commands.list());
    assert_eq!(a.errors.list(), b.errors.list());
    assert_eq!(a.responses.list(), b.responses.list());
    assert_eq!(a.to_json(), b.to_json());
    assert_eq!(a.to_json_text().unwrap(), b.to_json_text().unwrap());
}

#[test]
fn record_members_follow_the_order_of_declaration() {
    let c = Command {
        entry: Entry {
            key: "K".into(),
            name: "n".into(),
            code: 9,
            description: "d".into(),
            implemented: None,
        },
        user_confirm: Some(true),
        send_input: None,
        enabled: Some(false),
        temporary: true,
    };
    assert_eq!(
        c.to_json(),
        Json::Object(vec![
            ("key".to_string(), Json::Text("K".to_string())),
            ("name".to_string(), Json::Text("n".to_string())),
            ("code".to_string(), Json::Number(9)),
            ("description".to_string(), Json::Text("d".to_string())),
            ("implemented".to_string(), Json::Null),
            ("user_confirm".to_string(), Json::Bool(true)),
            ("send_input".to_string(), Json::Null),
            ("enabled".to_string(), Json::Bool(false)),
            ("temporary".to_string(), Json::Bool(true)),
        ])
    );
    let copy = c.duplicate();
    assert_eq!(copy, c);
    assert_eq!(c.clone(), c);
    let r = Response { entry: c.entry.clone(), initial_response: Some(false) };
    match r.to_json() {
        Json::Object(members) => {
            assert_eq!(members.len(), 6);
            assert_eq!(members[5], ("initial_response".to_string(), Json::Bool(false)));
        }
        _ => panic!("a record is an object"),
    }
    let e = ErrorResponse { entry: c.entry.clone() };
    match e.to_json() {
        Json::Object(members) => assert_eq!(members.len(), 5),
        _ => panic!("a record is an object"),
    }
}

#[test]
fn schema_text_is_indented_json() {
    let p = RyderProtocol::from_sources(
        b"key,name,code,description,temporary\n",
        ERRORS.as_bytes(),
        b"key,name,code,description\n",
    )
    .unwrap();
    let expected = r#"{
  "commands": {},
  "commands_list": [],
  "errors": {
    "E_UNKNOWN": {
      "key": "E_UNKNOWN",
      "name": "unknown",
      "code": 255,
      "description": "unknown error",
      "implemented": null
    }
  },
  "errors_list": [
    {
      "key": "E_UNKNOWN",
      "name": "unknown",
      "code": 255,
      "description": "unknown error",
      "implemented": null
    }
  ],
  "responses": {},
  "responses_list": []
}"#;
    assert_eq!(p.to_json_text().unwrap(), expected);
}

#[test]
fn json_text_escapes_and_nests() {
    let j = Json::Object(vec![
        ("a\"b".to_string(), Json::Array(vec![Json::Null, Json::Bool(true), Json::Number(7)])),
        ("t".to_string(), Json::Text("line\nbreak".to_string())),
    ]);
    assert_eq!(
        j.to_pretty_text().unwrap(),
        "{\n  \"a\\\"b\": [\n    null,\n    true,\n    7\n  ],\n  \"t\": \"line\\nbreak\"\n}"
    );
    assert_eq!(Json::text("x"), Json::Text("x".to_string()));
    assert_eq!(Json::tristate(None), Json::Null);
    assert_eq!(Json::tristate(Some(false)), Json::Bool(false));
    assert_eq!(Json::array(vec![]).to_pretty_text().unwrap(), "[]");
    assert_eq!(Json::object(vec![]).to_pretty_text().unwrap(), "{}");
}

#[test]
fn map_members_stand_in_the_order_of_first_occurrence() {
    let data = "key,name,code,description\nb,n1,1,d\na,n2,2,d\nb,n3,3,d\n";
    let p = RyderProtocol::from_sources(
        b"key,name,code,description,temporary\n",
        data.as_bytes(),
        b"key,name,code,description\n",
    )
    .unwrap();
    match p.errors.map_to_json() {
        Json::Object(members) => {
            assert_eq!(members.len(), 2);
            assert_eq!(members[0].0, "b");
            assert_eq!(members[1].0, "a");
            assert_eq!(members[0].1, p.errors.list()[2].to_json());
            assert_eq!(members[1].1, p.errors.list()[1].to_json());
        }
        _ => panic!("a map is an object"),
    }
    match p.errors.list_to_json() {
        Json::Array(items) => {
            assert_eq!(items.len(), 3);
            assert_eq!(items[0], p.errors.list()[0].to_json());
        }
        _ => panic!("a list is an array"),
    }
}

#[test]
fn schema_text_reads_back_with_the_same_values() {
    let p = sample();
    let text = p.to_json_text().unwrap();
    let back: serde_json::Value = serde_json::from_str(&text).unwrap();
    let top = back.as_object().unwrap();
    let names: Vec<&str> = top.keys().map(|k| k.as_str()).collect();
    assert_eq!(
        names,
        vec!["commands", "commands_list", "errors", "errors_list", "responses", "responses_list"]
    );
    assert_eq!(back["commands_list"].as_array().unwrap().len(), 2);
    assert_eq!(back["errors_list"].as_array().unwrap().len(), 1);
    assert_eq!(back["responses_list"].as_array().unwrap().len(), 2);
    assert_eq!(back["commands"].as_object().unwrap().len(), 2);
    assert_eq!(back["errors"].as_object().unwrap().len(), 1);
    assert_eq!(back["responses"].as_object().unwrap().len(), 1);
    let commands = p.commands.list();
    for (i, c) in commands.iter().enumerate() {
        let v = &back["commands_list"][i];
        assert_eq!(v["key"].as_str().unwrap(), c.entry.key);
        assert_eq!(v["name"].as_str().unwrap(), c.entry.name);
        assert_eq!(v["code"].as_u64().unwrap(), c.entry.code as u64);
        assert_eq!(v["description"].as_str().unwrap(), c.entry.description);
        assert_eq!(v["implemented"].as_bool(), c.entry.implemented);
        assert_eq!(v["user_confirm"].as_bool(), c.user_confirm);
        assert_eq!(v["send_input"].as_bool(), c.send_input);
        assert_eq!(v["enabled"].as_bool(), c.enabled);
        assert_eq!(v["temporary"].as_bool(), Some(c.temporary));
        assert_eq!(&back["commands"][c.entry.key.as_str()], v);
    }
    let wake = &back["commands"]["WAKE"];
    assert!(wake["implemented"].is_null());
    assert_eq!(wake["description"].as_str().unwrap(), "wake up, now");
    let ok = &back["responses"]["OK"];
    assert_eq!(ok["name"].as_str().unwrap(), "ok2");
    assert_eq!(ok["code"].as_u64().unwrap(), 3);
    assert!(ok["initial_response"].is_null());
    assert_eq!(back["responses_list"][0]["description"].as_str().unwrap(), "all \"fine\"");
    assert_eq!(back["responses_list"][0]["initial_response"].as_bool(), Some(true));
}

#[test]
fn document_of_given_records() {
    let e = ErrorResponse {
        entry: Entry {
            key: "E".into(),
            name: "e".into(),
            code: 4,
            description: "".into(),
            implemented: Some(true),
        },
    };
    let p = RyderProtocol::new(Vec::new(), vec![e.clone()], Vec::<Response>::new());
    assert_eq!(p.errors.list(), &vec![e.clone()]);
    assert_eq!(p.errors.get("E"), Some(&e));
    assert_eq!(e.key(), "E");
    assert_eq!(p.commands.len(), 0);
}
