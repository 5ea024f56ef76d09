use rust_db_engine::query::parser::{
    is_datetime, is_numeric_literal, is_uuid, match_token_to_identifier, parse_insert_clause,
    parse_update_clause, sql_parser, tokenize_query, ASTNode, Expression, Identifier,
};
use rust_db_engine::schema::schema::DataType;

#[test]
fn test_basic_comparison() {
    let query = b"WHERE age > 18";
    let ast = sql_parser(query).unwrap();

    assert_eq!(
        ast,
        vec![ASTNode::Where {
            condition: Expression::Comparison {
                left: Identifier::Name("age".to_string()),
                operator: ">".to_string(),
                right: Identifier::Literal("18".to_string(), None), // Properly parsed as integer
            }
        }]
    );
}

#[test]
fn test_select_with_timestamp() {
    let query = b"SELECT * FROM users AT 2025-02-11T20:14:26";
    let ast = sql_parser(query).unwrap();

    assert_eq!(
        ast,
        vec![ASTNode::Select {
            columns: vec![Identifier::Star],
            table: Identifier::Name("users".to_string()),
            timestamp: Some("2025-02-11 20:14:26".to_string()),
            limit: None,
        }]
    );
}

#[test]
fn test_select_with_multiple_columns_and_alias() {
    let query = b"SELECT id,name,email FROM users";
    let ast = sql_parser(query).unwrap();

    assert_eq!(
        ast,
        vec![ASTNode::Select {
            columns: vec![
                Identifier::Name("id".to_string()),
                Identifier::Name("name".to_string()),
                Identifier::Name("email".to_string())
            ],
            table: Identifier::Name("users".to_string()),
            timestamp: None,
            limit: None,
        }]
    );
}

#[test]
fn test_select_with_star_and_column() {
    let query = b"SELECT *,email FROM users";
    let ast = sql_parser(query).unwrap();

    assert_eq!(
        ast,
        vec![ASTNode::Select {
            columns: vec![
                Identifier::Star,
                Identifier::Name("email".to_string()),
            ],
            table: Identifier::Name("users".to_string()),
            timestamp: None,
            limit: None,
        }]
    );
}

#[test]
fn test_select_star() {
    let query = b"SELECT * FROM users";
    let ast = sql_parser(query).unwrap();

    assert_eq!(
        ast,
        vec![ASTNode::Select {
            columns: vec![Identifier::Star],
            table: Identifier::Name("users".to_string()),
            timestamp: None,
            limit: None,
        }]
    );
}

#[test]
fn test_invalid_create_table_missing_paren() {
    let query = b"CREATE TABLE users id INT, name TEXT";
    let ast = sql_parser(query);

    assert!(ast.is_err());
    assert_eq!(ast.err().unwrap(), "Expected '(' after table name.".to_string());
}

#[test]
fn test_invalid_column_definition() {
    let query = b"CREATE TABLE users (id)";
    let ast = sql_parser(query);

    assert!(ast.is_err());
    assert_eq!(ast.err().unwrap(), "Invalid column definition for 'id': Missing data type.".to_string());
}

#[test]
fn test_missing_column_type() {
    let query = b"CREATE TABLE users (id, name)";
    let ast = sql_parser(query);

    assert!(ast.is_err());
    assert_eq!(ast.err().unwrap(), "Invalid column definition for 'id': Missing data type.".to_string());
}

#[test]
fn test_create_table_with_column_constraints() {
    let query = b"CREATE TABLE users (id INT, name TEXT UNIQUE)";
    let ast = sql_parser(query).unwrap();

    assert_eq!(
        ast,
        vec![ASTNode::Create {
            table: Identifier::Name("users".to_string()),
            columns: vec![
                (
                    Identifier::Name("id".to_string()),
                    Identifier::Name("INT".to_string()),
                    vec![]
                ),
                (
                    Identifier::Name("name".to_string()),
                    Identifier::Name("TEXT".to_string()),
                    vec!["UNIQUE".to_string()]
                ),
            ],
        }]
    );
}

#[test]
fn test_insert_statement() {
    let query = b"INSERT INTO users (id, name) VALUES (1, \"John Doe\")";
    let ast = sql_parser(query).unwrap();

    assert_eq!(
        ast,
        vec![ASTNode::Insert {
            table: Identifier::Name("users".to_string()),
            columns: vec![
                Identifier::Name("id".to_string()),
                Identifier::Name("name".to_string())
            ],
            values: vec![
                Identifier::Literal("1".to_string(), Some(DataType::Int)), // Numeric literal
                Identifier::Literal("John Doe".to_string(), Some(DataType::String)), // String literal
            ]
        }]
    );
}

#[test]
fn test_insert_without_columns() {
    let query = b"INSERT INTO users VALUES (1, \"test\")";
    let ast = sql_parser(query).unwrap();
    assert_eq!(ast, vec![
        ASTNode::Insert {
            table: Identifier::Name("users".to_string()),
            columns: vec![], // No columns specified
            values: vec![
                Identifier::Literal("1".to_string(), Some(DataType::Int)),
                Identifier::Literal("test".to_string(), Some(DataType::String)),
            ],
        },
    ]);
}

#[test]
fn test_update_with_assignment() {
    let query = b"UPDATE users SET name = \"John Doe\" WHERE id = 1";
    let ast = sql_parser(query).unwrap();

    assert_eq!(
        ast,
        vec![
            ASTNode::Update {
                table: Identifier::Name("users".to_string()),
                values: vec![(
                    Identifier::Name("name".to_string()),
                    Identifier::Literal("John Doe".to_string(), Some(DataType::String)),
                )],
            },
            ASTNode::Where {
                condition: Expression::Comparison {
                    left: Identifier::Name("id".to_string()),
                    operator: "=".to_string(),
                    right: Identifier::Literal("1".to_string(), None),
                },
            },
        ]
    );
}

#[test]
fn test_delete_statement() {
    let query = b"DELETE FROM users WHERE id = 1";
    let ast = sql_parser(query).unwrap();

    assert_eq!(
        ast,
        vec![
            ASTNode::Delete {
                table: Identifier::Name("users".to_string()),
            },
            ASTNode::Where {
                condition: Expression::Comparison {
                    left: Identifier::Name("id".to_string()),
                    operator: "=".to_string(),
                    right: Identifier::Literal("1".to_string(), None),
                }
            }
        ]
    );
}


#[test]
fn test_invalid_syntax_missing_select_keyword() {
    let query = b"* FROM users";
    let ast = sql_parser(query);

    assert!(ast.is_err());
    assert_eq!(ast.err().unwrap(), "Unexpected token: *".to_string());
}

#[test]
fn test_nested_create_query() {
    let query = b"CREATE TABLE orders (id INT, user_id INT, FOREIGN KEY (user_id) REFERENCES users(id))";
    let ast = sql_parser(query);

    assert!(ast.is_err()); // For now, let's err on complex unsupported syntax
}

#[test]
fn test_drop_table_statement() {
    let query = b"DROP TABLE users";
    let result = sql_parser(query);

    assert!(result.is_ok());
    let nodes = result.unwrap();

    assert_eq!(nodes.len(), 1);
    match &nodes[0] {
        ASTNode::Drop { table } => {
            assert_eq!(table, &Identifier::Name("users".to_string()));
        }
        _ => panic!("Expected Drop node"),
    }
}

#[test]
fn tokens_are_separated_by_spaces_and_punctuation() {
    let tokens = tokenize_query("INSERT INTO t (a, b)VALUES(1,\"x, y\")").unwrap();
    assert_eq!(
        tokens,
        vec!["INSERT", "INTO", "t", "(", "a", ",", "b", ")", "VALUES", "(", "1", ",", "x, y", ")"]
    );
}

#[test]
fn a_semicolon_ends_a_query() {
    let whole = sql_parser(b"SELECT * FROM a; DROP TABLE a").unwrap();
    let first = sql_parser(b"SELECT * FROM a").unwrap();
    assert_eq!(whole, first);
    let quoted = tokenize_query("a \"b;c\" d").unwrap();
    assert_eq!(quoted, vec!["a", "b;c", "d"]);
}

#[test]
fn quotes_are_in_no_token() {
    for query in ["a \"b c\" d", "\"\"", "x\"y\"z", "\"open"] {
        for token in tokenize_query(query).unwrap() {
            assert!(!token.contains('"'));
        }
    }
}

#[test]
fn bytes_that_are_no_text_are_refused() {
    assert!(sql_parser(&[0x53, 0xff]).is_err());
    assert_eq!(
        sql_parser(&[0x53, 0xff]).err().unwrap(),
        "invalid utf-8 sequence of 1 bytes from index 1"
    );
}

#[test]
fn update_and_delete_need_a_condition() {
    assert!(sql_parser(b"DELETE FROM users").is_err());
    assert!(sql_parser(b"UPDATE users SET name = 1").is_err());
    let nodes = sql_parser(b"DELETE FROM users WHERE id = 1").unwrap();
    assert!(matches!(nodes[1], ASTNode::Where { .. }));
}

#[test]
fn a_limit_is_a_number() {
    let nodes = sql_parser(b"SELECT * FROM users LIMIT 5").unwrap();
    match &nodes[0] {
        ASTNode::Select { limit, .. } => assert_eq!(*limit, Some(5)),
        _ => panic!("Expected Select node"),
    }
    assert!(sql_parser(b"SELECT * FROM users LIMIT x").is_err());
}

#[test]
fn literals_are_told_apart() {
    assert!(is_numeric_literal("42"));
    assert!(is_numeric_literal("-4.25"));
    assert!(!is_numeric_literal("4x"));
    assert!(is_datetime("2024-03-21 15:30:00"));
    assert!(is_datetime("2024-03-21T15:30:00"));
    assert!(!is_datetime("2024-03-21"));
    assert!(is_uuid("550e8400-e29b-41d4-a716-446655440000"));
    assert!(is_uuid("550e8400e29b41d4a716446655440000"));
    assert!(is_uuid("{550e8400-e29b-41d4-a716-446655440000}"));
    assert!(is_uuid("URN:uuid:550e8400-e29b-41d4-a716-446655440000"));
    assert!(!is_uuid("550e8400-e29b-41d4-a716-44665544000g"));
}

#[test]
fn a_value_token_gets_its_type() {
    let literal = |s: &str, t: Option<DataType>| Identifier::Literal(s.to_string(), t);
    let token = |s: &str| match_token_to_identifier(&s.to_string());
    assert_eq!(token("\"a b\""), literal("a b", Some(DataType::String)));
    assert_eq!(token("7"), literal("7", Some(DataType::Int)));
    assert_eq!(
        token("550e8400-e29b-41d4-a716-446655440000"),
        literal("550e8400-e29b-41d4-a716-446655440000", Some(DataType::UUID))
    );
    assert_eq!(
        token("2024-03-21T15:30:00"),
        literal("2024-03-21T15:30:00", Some(DataType::DateTime))
    );
    assert_eq!(token("abc"), literal("abc", Some(DataType::String)));
    assert_eq!(token("+-"), literal("+-", None));
}

#[test]
fn tokens_without_strings_read_back() {
    for query in [
        "CREATE TABLE t (a Int,b String) ; rest",
        "INSERT INTO t(a,b)VALUES(1,x)",
        "  SELECT\ta\n, b FROM t  ",
        "",
    ] {
        let tokens = tokenize_query(query).unwrap();
        for token in &tokens {
            assert!(!token.is_empty());
            assert!(!token.contains(|c: char| c.is_whitespace() || c == '"' || c == ';'));
            assert!(token.len() == 1 || !token.contains(|c| c == ',' || c == '(' || c == ')'));
        }
        assert_eq!(tokenize_query(&tokens.join(" ")).unwrap(), tokens);
    }
    let tokens = tokenize_query("INSERT INTO t(a)VALUES(1)").unwrap();
    assert_eq!(tokens, ["INSERT", "INTO", "t", "(", "a", ")", "VALUES", "(", "1", ")"]);
    // A string with a space in it is one token, which does not read back as one.
    let tokens = tokenize_query("a \"b c\"").unwrap();
    assert_eq!(tokens, ["a", "b c"]);
    assert_eq!(tokenize_query(&tokens.join(" ")).unwrap(), ["a", "b", "c"]);
}

#[test]
fn a_lone_quote_can_be_a_name() {
    let words = |s: &str| s.split(' ').map(|w| w.to_string()).collect::<Vec<String>>();
    let (node, end) = parse_insert_clause(&words("INSERT INTO \" ( \" ) VALUES ( 1 )"), 0).unwrap();
    assert_eq!(end, 10);
    assert_eq!(
        node,
        ASTNode::Insert {
            table: Identifier::Name("\"".to_string()),
            columns: vec![Identifier::Name("\"".to_string())],
            values: vec![Identifier::Literal("1".to_string(), Some(DataType::Int))],
        }
    );
    let (node, end) = parse_update_clause(&words("UPDATE \" SET \" = 1 WHERE"), 0).unwrap();
    assert_eq!(end, 6);
    assert_eq!(
        node,
        ASTNode::Update {
            table: Identifier::Name("\"".to_string()),
            values: vec![(
                Identifier::Name("\"".to_string()),
                Identifier::Literal("1".to_string(), Some(DataType::Int)),
            )],
        }
    );
    assert!(parse_insert_clause(&words("INSERT \" VALUES ( \" )"), 0).is_err());
}
