use beerdata::gql::{GqlError, GraphqlError, Response};

#[test]
fn returns_graphql_data() {
    let response = Response {
        data: Some(serde_json::from_str(r#"{"entries":[{"title":"Germany"}]}"#).unwrap()),
        errors: Vec::new(),
    };
    let data = response.into_data().ok().unwrap();

    assert_eq!(data["entries"][0]["title"], "Germany");
}

#[test]
fn rejects_graphql_errors_even_when_data_is_present() {
    let response = Response {
        data: Some(serde_json::from_str("{}").unwrap()),
        errors: vec![GraphqlError {
            message: "Not authorized".to_owned(),
        }],
    };
    let error = match response.into_data() {
        Err(error) => error,
        Ok(_) => panic!("errors were accepted"),
    };

    assert!(error.message().contains("Not authorized"));
}

#[test]
fn joins_all_graphql_error_messages() {
    let response = Response {
        data: None,
        errors: vec![
            GraphqlError { message: "first".to_owned() },
            GraphqlError { message: "second".to_owned() },
        ],
    };
    match response.into_data() {
        Err(GqlError::Graphql { messages }) => assert_eq!(messages, "first; second"),
        _ => panic!("expected GraphQL errors"),
    }
}

#[test]
fn response_without_data_is_an_error() {
    let response = Response { data: None, errors: Vec::new() };
    let error = match response.into_data() {
        Err(error) => error,
        Ok(_) => panic!("missing data was accepted"),
    };
    assert!(matches!(error, GqlError::NoData));
    assert_eq!(error.message(), "GraphQL returned no data");
}
