//! The `where` clause parser.
use constance::parse_generics::{parse_where_shim, tokenize};

/// Compares two texts without regard to white space.
fn aeqiws(lhs: String, rhs: &str) {
    let lhs_words = lhs.split_whitespace();
    let rhs_words = rhs.split_whitespace();
    let lhs = lhs_words.collect::<Vec<_>>().join("");
    let rhs = rhs_words.collect::<Vec<_>>().join("");
    assert_eq!(lhs, rhs);
}

/// Parses `body` for the parts that `fields` asks for.
fn pwts(fields: &str, body: &str) -> String {
    let out = parse_where_shim(&fields.as_bytes().to_vec(), &body.as_bytes().to_vec());
    String::from_utf8(out.unwrap()).unwrap()
}

#[test]
fn test_no_where() {
    aeqiws(
        pwts("{..}", "X"),
        r#"
            { clause : [ ] , preds : [ ] , .. } ,
            X
        "#,
    );

    aeqiws(
        pwts("{ clause, preds }", "X"),
        r#"
            { clause : [ ] , preds : [ ] , } ,
            X
        "#,
    );

    aeqiws(
        pwts("{ preds }", "X"),
        r#"
            { preds : [ ] , } ,
            X
        "#,
    );
}

#[test]
fn test_where() {
    aeqiws(
        pwts("{..}", "where 'a: 'b; X"),
        r#"
            {
                clause : [ where 'a : 'b , ] ,
                preds : [ 'a : 'b , ] ,
                ..
            } ,
            ; X
        "#,
    );

    aeqiws(
        pwts("{..}", "where T: 'a + U; X"),
        r#"
            {
                clause : [ where T : 'a + U , ] ,
                preds : [ T : 'a + U , ] ,
                ..
            } ,
            ; X
        "#,
    );

    aeqiws(
        pwts("{..}", "where 'a: 'b, T: 'a + U; X"),
        r#"
            {
                clause : [ where 'a : 'b , T : 'a + U , ] ,
                preds : [ 'a : 'b , T : 'a + U , ] ,
                ..
            } ,
            ; X
        "#,
    );

    aeqiws(
        pwts("{..}", "where 'a: 'b, T: 'a + U, {} X"),
        r#"
            {
                clause : [ where 'a : 'b , T : 'a + U , ] ,
                preds : [ 'a : 'b , T : 'a + U , ] ,
                ..
            } ,
            { } X
        "#,
    );

    aeqiws(
        pwts("{..}", "where for<> T: 'a; X"),
        r#"
            {
                clause : [ where T : 'a , ] ,
                preds : [ T : 'a , ] ,
                ..
            } ,
            ; X
        "#,
    );

    aeqiws(
        pwts("{..}", "where for<'a> T: 'a; X"),
        r#"
            {
                clause : [ where for < 'a , > T : 'a , ] ,
                preds : [ for < 'a , > T : 'a , ] ,
                ..
            } ,
            ; X
        "#,
    );

    aeqiws(
        pwts("{..}", "where for<'a: 'b> T: 'a; X"),
        r#"
            {
                clause : [ where for < 'a : 'b , > T : 'a , ] ,
                preds : [ for < 'a : 'b , > T : 'a , ] ,
                ..
            } ,
            ; X
        "#,
    );

    aeqiws(
        pwts("{..}", "where 'a: 'b, for<'a: 'b> T: 'a, 'c: 'a + 'b; X"),
        r#"
            {
                clause : [ where 'a : 'b , for < 'a : 'b , > T : 'a , 'c : 'a + 'b , ] ,
                preds : [ 'a : 'b , for < 'a : 'b , > T : 'a , 'c : 'a + 'b , ] ,
                ..
            } ,
            ; X
        "#,
    );
}

#[test]
fn where_clause_text_is_exact() {
    assert_eq!(pwts("{ preds }", "where T: U; X"), "{ preds : [ T : U , ] , } , ; X ");
    assert_eq!(pwts("{clause}", "X"), "{ clause : [ ] , } , X ");
    // A comma within brackets does not end a predicate.
    assert_eq!(
        pwts("{preds}", "where T: Iterator<Item = (A, B)>, U: V {"),
        "{ preds : [ T : Iterator < Item = ( A , B ) > , U : V , ] , } , { "
    );
    // An identifier that begins like the keyword is no keyword.
    assert_eq!(pwts("{preds}", "wherever;"), "{ preds : [ ] , } , wherever ; ");
    // The items of a `for<..>` are each followed by a comma.
    assert_eq!(
        pwts("{preds}", "where for<'a, 'b> F: Fn(&'a u8) -> &'b u8;"),
        "{ preds : [ for < 'a , 'b , > F : Fn ( & 'a u8 ) - > & 'b u8 , ] , } , ; "
    );
    assert_eq!(
        pwts("{preds}", "where for<'a,> T: 'a"),
        "{ preds : [ for < 'a , > T : 'a , ] , } , "
    );
}

#[test]
fn field_lists_that_are_not_well_formed() {
    let parse = |fields: &str| parse_where_shim(&fields.as_bytes().to_vec(), &b"X".to_vec());
    assert_eq!(parse(""), None);
    assert_eq!(parse("{"), None);
    assert_eq!(parse("clause"), None);
    assert_eq!(parse("{ clause"), None);
    assert_eq!(parse("{ other }"), None);
    assert_eq!(parse("{ clause } preds"), None);
    assert!(parse("{}").is_some());
}

#[test]
fn text_is_split_into_tokens() {
    let tokens = |s: &str| {
        tokenize(&s.as_bytes().to_vec())
            .into_iter()
            .map(|t| String::from_utf8(t).unwrap())
            .collect::<Vec<_>>()
    };
    assert_eq!(tokens(""), Vec::<String>::new());
    assert_eq!(tokens(" \t\n"), Vec::<String>::new());
    assert_eq!(tokens("where 'a:'b_1+T9;"), vec!["where", "'a", ":", "'b_1", "+", "T9", ";"]);
    assert_eq!(tokens("a::b"), vec!["a", ":", ":", "b"]);
    assert_eq!(tokens("9a _x"), vec!["9", "a", "_x"]);
}
