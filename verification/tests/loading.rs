use protocol_schema::entry::{Command, ErrorResponse, ProtocolEntry, Response};
use protocol_schema::error::{Fault, LoadError};
use protocol_schema::loader::{from_csv, from_table};
use protocol_schema::schema::{Category, Field};
use protocol_schema::section::Section;
use protocol_schema::table::{find_column, Column, Table};
use protocol_schema::text::{read_code, read_flag, read_tristate};

const ERRORS: &str = "key,name,code,description,implemented\n\
E1,first,1,the first,true\n\
E2,second,2,the second,false\n\
E3,third,3,the third,\n";

#[test]
fn loader_returns_one_record_per_row_in_order() {
    let records = from_csv::<ErrorResponse>(ERRORS.as_bytes()).unwrap();
    assert_eq!(records.len(), 3);
    assert_eq!(records[0].entry.key, "E1");
    assert_eq!(records[1].entry.key, "E2");
    assert_eq!(records[2].entry.key, "E3");
    assert_eq!(records[0].entry.name, "first");
    assert_eq!(records[1].entry.code, 2);
    assert_eq!(records[2].entry.description, "the third");
    assert_eq!(records[0].entry.implemented, Some(true));
    assert_eq!(records[1].entry.implemented, Some(false));
    assert_eq!(records[2].entry.implemented, None);
}

#[test]
fn table_is_split_into_header_and_rows() {
    let table = Table::read(b"a,b\n1,2\n\"x,y\",\"say \"\"hi\"\"\"\n").unwrap();
    assert_eq!(table.header, vec!["a".to_string(), "b".to_string()]);
    assert_eq!(table.rows.len(), 2);
    assert_eq!(table.rows[0], vec!["1".to_string(), "2".to_string()]);
    assert_eq!(table.rows[1], vec!["x,y".to_string(), "say \"hi\"".to_string()]);
}

#[test]
fn rows_of_unequal_length_are_malformed() {
    assert_eq!(Table::read(b"a,b\n1,2,3\n").err(), Some(Some(0)));
    assert_eq!(Table::read(b"a,b\n1,2\n3,4\n5\n").err(), Some(Some(2)));
    let r = from_csv::<ErrorResponse>(b"key,name,code,description\nE1,first,1\n");
    assert_eq!(
        r.err(),
        Some(LoadError { table: Category::Errors, row: Some(0), fault: Fault::Malformed })
    );
    let r = from_csv::<ErrorResponse>(
        b"key,name,code,description\nE1,first,1,d\nE2,second,2,d\nE3,third,3,d,more\n",
    );
    assert_eq!(
        r.err(),
        Some(LoadError { table: Category::Errors, row: Some(2), fault: Fault::Malformed })
    );
}

#[test]
fn text_that_is_not_utf8_is_malformed() {
    assert_eq!(Table::read(b"a,b\n\xff,2\n").err(), Some(Some(0)));
    assert_eq!(Table::read(b"a,b\n1,2\n3,\xff\n").err(), Some(Some(1)));
    assert_eq!(Table::read(b"a,\xff\n1,2\n").err(), Some(None));
    let r = from_csv::<ErrorResponse>(b"key,name,code,\xff\nE1,first,1,d\n");
    assert_eq!(
        r.err(),
        Some(LoadError { table: Category::Errors, row: None, fault: Fault::Malformed })
    );
}

#[test]
fn rows_read_are_as_long_as_the_header() {
    let table = Table::read(b"a,b,c\n1,2,3\n,,\n\"x\",y,\n").unwrap();
    assert_eq!(table.rows.len(), 3);
    for row in table.rows.iter() {
        assert_eq!(row.len(), table.header.len());
    }
}

#[test]
fn duplicate_key_keeps_both_rows_and_maps_to_the_later() {
    let data = "key,name,code,description\nX,A,1,one\nX,B,2,two\n";
    let records = from_csv::<ErrorResponse>(data.as_bytes()).unwrap();
    assert_eq!(records.len(), 2);
    assert_eq!(records[0].entry.name, "A");
    assert_eq!(records[1].entry.name, "B");
    let section = Section::new(records);
    assert_eq!(section.len(), 2);
    assert_eq!(section.list()[0].entry.name, "A");
    assert_eq!(section.list()[1].entry.name, "B");
    assert_eq!(section.map().len(), 1);
    assert_eq!(section.get("X").unwrap().entry.name, "B");
    assert_eq!(section.get("X").unwrap().entry.code, 2);
}

#[test]
fn map_has_one_entry_per_distinct_key() {
    let data = "key,name,code,description\n\
a,n1,1,d\nb,n2,2,d\na,n3,3,d\nc,n4,4,d\nb,n5,5,d\n";
    let section = Section::new(from_csv::<Response>(data.as_bytes()).unwrap());
    assert_eq!(section.len(), 5);
    assert_eq!(section.map().len(), 3);
    assert_eq!(section.get("a").unwrap().entry.name, "n3");
    assert_eq!(section.get("b").unwrap().entry.name, "n5");
    assert_eq!(section.get("c").unwrap().entry.name, "n4");
    assert!(section.get("d").is_none());
}

#[test]
fn command_without_temporary_column_fails_the_load() {
    let data = "key,name,code,description,implemented,user_confirm,send_input,enabled\n\
C1,info,1,about,true,false,false,true\n";
    let r = from_csv::<Command>(data.as_bytes());
    assert_eq!(
        r.err(),
        Some(LoadError {
            table: Category::Commands,
            row: None,
            fault: Fault::MissingField(Field::Temporary),
        })
    );
}

#[test]
fn missing_required_column_fails_even_without_rows() {
    let r = from_csv::<ErrorResponse>(b"key,name,description\n");
    assert_eq!(
        r.err(),
        Some(LoadError {
            table: Category::Errors,
            row: None,
            fault: Fault::MissingField(Field::Code),
        })
    );
    let r = from_csv::<ErrorResponse>(b"");
    assert_eq!(
        r.err(),
        Some(LoadError {
            table: Category::Errors,
            row: None,
            fault: Fault::MissingField(Field::Key),
        })
    );
}

#[test]
fn column_names_are_case_sensitive() {
    let r = from_csv::<ErrorResponse>(b"Key,name,code,description\nE1,first,1,text\n");
    assert_eq!(
        r.err(),
        Some(LoadError {
            table: Category::Errors,
            row: None,
            fault: Fault::MissingField(Field::Key),
        })
    );
}

#[test]
fn empty_table_gives_empty_list_and_map() {
    let records = from_csv::<Command>(
        b"key,name,code,description,implemented,user_confirm,send_input,enabled,temporary\n",
    )
    .unwrap();
    assert!(records.is_empty());
    let section = Section::new(records);
    assert_eq!(section.len(), 0);
    assert_eq!(section.map().len(), 0);
    assert!(section.map().is_empty());
}

#[test]
fn empty_implemented_cell_is_unknown() {
    let data = "key,name,code,description,implemented\nE1,first,1,text,\n";
    let records = from_csv::<ErrorResponse>(data.as_bytes()).unwrap();
    assert_eq!(records[0].entry.implemented, None);
    assert_ne!(records[0].entry.implemented, Some(false));
    assert_ne!(records[0].entry.implemented, Some(true));
}

#[test]
fn absent_optional_column_is_unknown() {
    let data = "key,name,code,description,temporary\nC1,info,1,about,true\n";
    let records = from_csv::<Command>(data.as_bytes()).unwrap();
    assert_eq!(records[0].entry.implemented, None);
    assert_eq!(records[0].user_confirm, None);
    assert_eq!(records[0].send_input, None);
    assert_eq!(records[0].enabled, None);
    assert!(records[0].temporary);
}

#[test]
fn command_fields_are_read_by_column_name() {
    let data = "temporary,enabled,send_input,user_confirm,implemented,description,code,name,key\n\
false,true,,false,true,about,0x1f,info,C1\n";
    let records = from_csv::<Command>(data.as_bytes()).unwrap();
    assert_eq!(records.len(), 1);
    let c = &records[0];
    assert_eq!(c.entry.key, "C1");
    assert_eq!(c.entry.name, "info");
    assert_eq!(c.entry.code, 31);
    assert_eq!(c.entry.description, "about");
    assert_eq!(c.entry.implemented, Some(true));
    assert_eq!(c.user_confirm, Some(false));
    assert_eq!(c.send_input, None);
    assert_eq!(c.enabled, Some(true));
    assert!(!c.temporary);
    assert_eq!(c.key(), "C1");
}

#[test]
fn response_reads_initial_response() {
    let data = "key,name,code,description,implemented,initial_response\n\
R1,ok,1,fine,true,true\nR2,more,2,again,,\n";
    let records = from_csv::<Response>(data.as_bytes()).unwrap();
    assert_eq!(records[0].initial_response, Some(true));
    assert_eq!(records[1].initial_response, None);
    assert_eq!(records[1].key(), "R2");
}

#[test]
fn unknown_columns_are_ignored() {
    let data = "key,extra,name,code,description,extra\nE1,x,first,1,text,y\n";
    let records = from_csv::<ErrorResponse>(data.as_bytes()).unwrap();
    assert_eq!(records.len(), 1);
    assert_eq!(records[0].entry.name, "first");
    assert_eq!(records[0].key(), "E1");
}

#[test]
fn invalid_code_fails_with_its_row() {
    let data = "key,name,code,description\nE1,first,1,text\nE2,second,256,text\nE3,third,x,text\n";
    let r = from_csv::<ErrorResponse>(data.as_bytes());
    assert_eq!(
        r.err(),
        Some(LoadError {
            table: Category::Errors,
            row: Some(1),
            fault: Fault::InvalidValue(Field::Code),
        })
    );
}

#[test]
fn invalid_tristate_fails_with_its_row() {
    let data = "key,name,code,description,implemented\nE1,first,1,text,yes\n";
    let r = from_csv::<ErrorResponse>(data.as_bytes());
    assert_eq!(
        r.err(),
        Some(LoadError {
            table: Category::Errors,
            row: Some(0),
            fault: Fault::InvalidValue(Field::Implemented),
        })
    );
}

#[test]
fn invalid_temporary_fails_with_its_row() {
    let data = "key,name,code,description,temporary\nC1,a,1,t,true\nC2,b,2,t,false\nC3,c,3,t,\n";
    let r = from_csv::<Command>(data.as_bytes());
    assert_eq!(
        r.err(),
        Some(LoadError {
            table: Category::Commands,
            row: Some(2),
            fault: Fault::InvalidValue(Field::Temporary),
        })
    );
}

#[test]
fn repeated_column_fails_on_the_first_row() {
    let data = "key,name,code,description,name\nE1,first,1,text,again\n";
    let r = from_csv::<ErrorResponse>(data.as_bytes());
    assert_eq!(
        r.err(),
        Some(LoadError {
            table: Category::Errors,
            row: Some(0),
            fault: Fault::DuplicateField(Field::Name),
        })
    );
    let none = from_csv::<ErrorResponse>(b"key,name,code,description,name\n").unwrap();
    assert!(none.is_empty());
}

#[test]
fn short_row_misses_its_required_cell() {
    let table = Table {
        header: vec!["key".into(), "name".into(), "code".into(), "description".into()],
        rows: vec![
            vec!["E1".into(), "first".into(), "1".into(), "text".into()],
            vec!["E2".into(), "second".into()],
        ],
    };
    let r = from_table::<ErrorResponse>(&table);
    assert_eq!(
        r.err(),
        Some(LoadError {
            table: Category::Errors,
            row: Some(1),
            fault: Fault::MissingField(Field::Code),
        })
    );
}

#[test]
fn empty_text_cells_are_kept() {
    let data = "key,name,code,description\n,,0,\n";
    let records = from_csv::<ErrorResponse>(data.as_bytes()).unwrap();
    assert_eq!(records[0].entry.key, "");
    assert_eq!(records[0].entry.name, "");
    assert_eq!(records[0].entry.code, 0);
    assert_eq!(records[0].entry.description, "");
}

#[test]
fn codes_are_decimal_or_hexadecimal_bytes() {
    assert_eq!(read_code("0"), Some(0));
    assert_eq!(read_code("7"), Some(7));
    assert_eq!(read_code("255"), Some(255));
    assert_eq!(read_code("256"), None);
    assert_eq!(read_code("000000000000000000000255"), Some(255));
    assert_eq!(read_code("99999999999999999999999"), None);
    assert_eq!(read_code("+12"), Some(12));
    assert_eq!(read_code("-1"), None);
    assert_eq!(read_code("+"), None);
    assert_eq!(read_code(""), None);
    assert_eq!(read_code(" 1"), None);
    assert_eq!(read_code("1 "), None);
    assert_eq!(read_code("1_0"), None);
    assert_eq!(read_code("1f"), None);
    assert_eq!(read_code("0x1f"), Some(31));
    assert_eq!(read_code("0x1F"), Some(31));
    assert_eq!(read_code("0xff"), Some(255));
    assert_eq!(read_code("0x100"), None);
    assert_eq!(read_code("0x"), None);
    assert_eq!(read_code("0x+a"), Some(10));
    assert_eq!(read_code("0X10"), None);
    assert_eq!(read_code("0xg"), None);
    assert_eq!(read_code("\u{661}"), None);
}

#[test]
fn codes_agree_with_the_standard_parser() {
    for n in 0u32..=300 {
        let dec = format!("{}", n);
        let hex = format!("0x{:x}", n);
        let expected = if n <= 255 { Some(n as u8) } else { None };
        assert_eq!(read_code(&dec), expected);
        assert_eq!(read_code(&dec), dec.parse::<u8>().ok());
        assert_eq!(read_code(&hex), expected);
        assert_eq!(read_code(&hex), u8::from_str_radix(&hex[2..], 16).ok());
    }
}

#[test]
fn flags_are_exactly_true_or_false() {
    assert_eq!(read_flag("true"), Some(true));
    assert_eq!(read_flag("false"), Some(false));
    assert_eq!(read_flag("True"), None);
    assert_eq!(read_flag("1"), None);
    assert_eq!(read_flag(""), None);
    assert_eq!(read_flag("true "), None);
    assert_eq!(read_tristate(""), Some(None));
    assert_eq!(read_tristate("true"), Some(Some(true)));
    assert_eq!(read_tristate("false"), Some(Some(false)));
    assert_eq!(read_tristate("no"), None);
}

#[test]
fn columns_are_found_once_twice_or_not_at_all() {
    let header: Vec<String> = vec!["a".into(), "b".into(), "a".into(), "c".into()];
    assert_eq!(find_column(&header, "a"), Column::Repeated);
    assert_eq!(find_column(&header, "b"), Column::At(1));
    assert_eq!(find_column(&header, "c"), Column::At(3));
    assert_eq!(find_column(&header, "d"), Column::Absent);
    assert_eq!(find_column(&Vec::new(), "a"), Column::Absent);
}

#[test]
fn categories_and_fields_have_their_names() {
    assert_eq!(Category::Commands.table_name(), "commands");
    assert_eq!(Category::Errors.table_name(), "error_responses");
    assert_eq!(Category::Responses.table_name(), "responses");
    assert_eq!(Field::Key.name(), "key");
    assert_eq!(Field::Code.name(), "code");
    assert_eq!(Field::InitialResponse.name(), "initial_response");
    assert_eq!(Command::category(), Category::Commands);
    assert_eq!(ErrorResponse::category(), Category::Errors);
    assert_eq!(Response::category(), Category::Responses);
    assert_eq!(
        Command::required(),
        vec![Field::Key, Field::Name, Field::Code, Field::Description, Field::Temporary]
    );
}

#[test]
fn unknown_column_in_the_middle_changes_nothing() {
    let plain = "key,name,code,description,implemented\nE1,first,1,one,true\nE2,second,2,two,\n";
    let wide = "key,name,note,code,description,implemented\n\
E1,first,true,1,one,true\nE2,second,0x,2,two,\n";
    let a = from_csv::<ErrorResponse>(plain.as_bytes()).unwrap();
    let b = from_csv::<ErrorResponse>(wide.as_bytes()).unwrap();
    assert_eq!(a, b);
    assert_eq!(b.len(), 2);
}

#[test]
fn equal_codes_are_kept_as_they_are() {
    let data = "key,name,code,description\na,n1,7,d\nb,n2,7,d\nc,n3,7,d\n";
    let records = from_csv::<Response>(data.as_bytes()).unwrap();
    assert_eq!(records.len(), 3);
    assert_eq!(records[0].entry.code, 7);
    assert_eq!(records[1].entry.code, 7);
    assert_eq!(records[2].entry.code, 7);
    let section = Section::new(records);
    assert_eq!(section.map().len(), 3);
    assert_eq!(section.get("a").unwrap().entry.code, 7);
    assert_eq!(section.get("b").unwrap().entry.name, "n2");
}
