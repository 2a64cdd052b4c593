use micro_cypher::cypher::{
    parse, tokenize, CreatePattern, CypherQuery, MatchPattern, ParseError, ReturnClause,
};

#[test]
fn test_parse_simple_match() {
    let query = "MATCH (n:User) RETURN n.id LIMIT 10";
    let result = parse(query);
    assert!(result.is_ok());

    let query = result.unwrap();
    match query {
        CypherQuery::Match { match_pattern, .. } => match match_pattern {
            MatchPattern::SingleNode { variable, label } => {
                assert_eq!(variable, "n");
                assert_eq!(label, Some("User".to_string()));
            }
            _ => panic!("Expected SingleNode pattern"),
        },
        _ => panic!("Expected Match query"),
    }
}

#[test]
fn test_parse_single_node_without_label() {
    let query = "MATCH (n) RETURN n.id LIMIT 10";
    let result = parse(query);
    assert!(result.is_ok());

    let query = result.unwrap();
    match query {
        CypherQuery::Match { match_pattern, .. } => match match_pattern {
            MatchPattern::SingleNode { variable, label } => {
                assert_eq!(variable, "n");
                assert_eq!(label, None);
            }
            _ => panic!("Expected SingleNode pattern"),
        },
        _ => panic!("Expected Match query"),
    }
}

#[test]
fn test_parse_return_all() {
    let query = "MATCH (n:User) RETURN * LIMIT 10";
    let result = parse(query);
    assert!(result.is_ok());

    let query = result.unwrap();
    match query {
        CypherQuery::Match { return_clause, .. } => match return_clause {
            ReturnClause::All => {}
            _ => panic!("Expected All return clause"),
        },
        _ => panic!("Expected Match query"),
    }
}

#[test]
fn test_parse_missing_limit() {
    let query = "MATCH (n:User) RETURN n.id";
    let result = parse(query);
    assert!(result.is_err());

    match result.unwrap_err() {
        ParseError::MissingLimit => {}
        _ => panic!("Expected MissingLimit error"),
    }
}

#[test]
fn test_parse_invalid_syntax() {
    let query = "MATCH (n:User RETURN n.id LIMIT 10";
    let result = parse(query);
    assert!(result.is_err());
}

#[test]
fn test_tokenize_basic() {
    let result = tokenize("MATCH (n:User) RETURN n.id LIMIT 10");
    assert!(result.is_ok());

    let tokens = result.unwrap();
    assert!(tokens.contains(&"MATCH".to_string()));
    assert!(tokens.contains(&"(".to_string()));
    assert!(tokens.contains(&"n".to_string()));
}

#[test]
fn test_tokenize_with_strings() {
    let result = tokenize("WHERE n.name = 'John'");
    assert!(result.is_ok());

    let tokens = result.unwrap();
    assert!(tokens.contains(&"John".to_string()));
}

#[test]
fn test_parse_multiple_whitespace() {
    let query = "MATCH   (n:User)   RETURN   n.id   LIMIT   10";
    let result = parse(query);
    assert!(result.is_ok());
}

#[test]
fn test_parse_case_insensitive_keywords() {
    let query = "match (n:User) return n.id limit 10";
    let result = parse(query);
    assert!(result.is_ok());
}

#[test]
fn test_parse_empty_query() {
    let query = "";
    let result = parse(query);
    assert!(result.is_err());
}

#[test]
fn test_parse_missing_match() {
    let query = "RETURN n.id LIMIT 10";
    let result = parse(query);
    assert!(result.is_err());
}

#[test]
fn test_parse_missing_return() {
    let query = "MATCH (n:User) LIMIT 10";
    let result = parse(query);
    assert!(result.is_err());
}

#[test]
fn test_parse_create_node() {
    let query = "CREATE (n:Person)";
    let result = parse(query);
    assert!(result.is_ok());

    let query = result.unwrap();
    match query {
        CypherQuery::Create { create_pattern } => match create_pattern {
            CreatePattern::Node { variable, label, data } => {
                assert_eq!(variable, "n");
                assert_eq!(label, Some("Person".to_string()));
                assert_eq!(data, None);
            }
            _ => panic!("Expected Node create pattern"),
        },
        _ => panic!("Expected Create query"),
    }
}

#[test]
fn test_parse_create_node_with_hex_data() {
    let query = "CREATE (n:Person {0x1234})";
    let result = parse(query);
    assert!(result.is_ok());

    let query = result.unwrap();
    match query {
        CypherQuery::Create { create_pattern } => match create_pattern {
            CreatePattern::Node { variable, label, data } => {
                assert_eq!(variable, "n");
                assert_eq!(label, Some("Person".to_string()));
                assert_eq!(data, Some(vec![0x12, 0x34]));
            }
            _ => panic!("Expected Node create pattern"),
        },
        _ => panic!("Expected Create query"),
    }
}

#[test]
fn test_parse_create_edge_with_ids() {
    let query = "CREATE (1)-[:FOLLOWS]->(2)";
    let result = parse(query);
    assert!(result.is_ok());

    let query = result.unwrap();
    match query {
        CypherQuery::Create { create_pattern } => match create_pattern {
            CreatePattern::Edge { from_id, to_id, edge, .. } => {
                assert_eq!(from_id, Some(1));
                assert_eq!(to_id, Some(2));
                assert_eq!(edge.label, Some("FOLLOWS".to_string()));
            }
            _ => panic!("Expected Edge create pattern"),
        },
        _ => panic!("Expected Create query"),
    }
}

#[test]
fn test_parse_create_edge_with_variables() {
    let query = "CREATE (a:User)-[:KNOWS]->(b:User)";
    let result = parse(query);
    assert!(result.is_ok());

    let query = result.unwrap();
    match query {
        CypherQuery::Create { create_pattern } => {
            match create_pattern {
                CreatePattern::Edge { from_id, to_id, edge, from, to } => {
                    // Variables are used, so IDs should be None
                    assert_eq!(from_id, None);
                    assert_eq!(to_id, None);
                    assert_eq!(from.variable, "a");
                    assert_eq!(to.variable, "b");
                    assert_eq!(edge.label, Some("KNOWS".to_string()));
                }
                _ => panic!("Expected Edge create pattern"),
            }
        }
        _ => panic!("Expected Create query"),
    }
}

#[test]
fn test_tokenize_exact() {
    let tokens = tokenize("MATCH (n:User)").unwrap();
    assert_eq!(tokens, vec!["MATCH", "(", "n", ":", "User", ")"]);
}

#[test]
fn test_tokenize_string_mode_keeps_specials() {
    let tokens = tokenize("'a (b) c'").unwrap();
    assert_eq!(tokens, vec!["a (b) c"]);
}

#[test]
fn test_parse_empty_query_invalid_syntax() {
    match parse("").unwrap_err() {
        ParseError::InvalidSyntax => {}
        _ => panic!("Expected InvalidSyntax error"),
    }
}

#[test]
fn test_parse_unexpected_token() {
    // A MATCH clause must open its pattern with a parenthesis.
    match parse("MATCH n RETURN n LIMIT 1").unwrap_err() {
        ParseError::UnexpectedToken => {}
        _ => panic!("Expected UnexpectedToken error"),
    }
}

#[test]
fn test_parse_odd_length_hex_rejected() {
    match parse("CREATE (n:Person {0x123})").unwrap_err() {
        ParseError::InvalidSyntax => {}
        _ => panic!("Expected InvalidSyntax error"),
    }
}

#[test]
fn test_parse_where_id_equality() {
    let query = "MATCH (a:User)->[:FOLLOWS]->(b:User) WHERE a.id = 42 RETURN b LIMIT 5";
    let result = parse(query).unwrap();
    match result {
        CypherQuery::Match { where_clause, limit, .. } => {
            match where_clause {
                Some(micro_cypher::cypher::WhereClause::NodeIdEq { variable, value }) => {
                    assert_eq!(variable, "a");
                    assert_eq!(value, 42);
                }
                _ => panic!("Expected NodeIdEq where clause"),
            }
            assert_eq!(limit, Some(5));
        }
        _ => panic!("Expected Match query"),
    }
}

#[test]
fn test_parse_where_attribute_equality() {
    let query = "MATCH (a:User)->[:FOLLOWS]->(b:User) WHERE a.name = 'John' RETURN b LIMIT 5";
    let result = parse(query).unwrap();
    match result {
        CypherQuery::Match { where_clause, .. } => match where_clause {
            Some(micro_cypher::cypher::WhereClause::NodeAttrEq { variable, attr, value }) => {
                assert_eq!(variable, "a");
                assert_eq!(attr, "name");
                assert_eq!(value, "John");
            }
            _ => panic!("Expected NodeAttrEq where clause"),
        },
        _ => panic!("Expected Match query"),
    }
}

#[test]
fn test_parse_limit_number() {
    let result = parse("MATCH (n) RETURN n LIMIT 0").unwrap();
    match result {
        CypherQuery::Match { limit, .. } => assert_eq!(limit, Some(0)),
        _ => panic!("Expected Match query"),
    }
}
