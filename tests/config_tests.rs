use json_echo_core::{
    BodyResponse, Config, ConfigManager, ConfigResponse, ConfigRoute, ConfigRouteResponse,
    FileSystemError, FileSystemManager, JsonValue,
};

fn j(text: &str) -> JsonValue {
    JsonValue::parse(text.as_bytes()).expect("test JSON should parse")
}

fn field<'a>(v: &'a JsonValue, k: &str) -> &'a JsonValue {
    v.get(&k.to_string()).expect("field should exist")
}

fn route<'a>(c: &'a Config, key: &str) -> Option<&'a ConfigRoute> {
    c.routes.iter().find(|(k, _)| k == key).map(|(_, r)| r)
}

fn manager() -> ConfigManager {
    ConfigManager::new(FileSystemManager::new("/tmp/project".to_string()))
}

fn no_files() -> Vec<(String, Vec<u8>)> {
    Vec::new()
}

#[test]
fn test_config_default() {
    let config = Config::default();
    assert_eq!(config.port, Some(3001), "Default port should be 3001");
    assert_eq!(config.hostname, Some("localhost".to_string()));
    assert!(config.static_folder.is_none());
    assert_eq!(config.static_route, "/static");
    assert!(config.routes.is_empty(), "Default routes should be empty");
}

#[test]
fn test_config_deserialization_complete() {
    let json_config = j(r#"{
        "port": 8080,
        "hostname": "0.0.0.0",
        "static_folder": "public",
        "static_route": "/assets",
        "routes": {
            "/api/users": {
                "method": "GET",
                "description": "Get all users",
                "headers": {"Content-Type": "application/json"},
                "id_field": "user_id",
                "results_field": "data",
                "response": {"status": 200, "body": {"users": []}}
            }
        }
    }"#);
    let config = Config::from_json(&json_config).expect("Should deserialize");
    assert_eq!(config.port, Some(8080));
    assert_eq!(config.hostname, Some("0.0.0.0".to_string()));
    assert_eq!(config.static_folder, Some("public".to_string()));
    assert_eq!(config.static_route, "/assets");
    assert_eq!(config.routes.len(), 1, "Should have one route");
    let route = route(&config, "/api/users").expect("Route should exist");
    assert_eq!(route.method, Some("GET".to_string()));
    assert_eq!(route.description, Some("Get all users".to_string()));
    assert!(route.headers.is_some(), "Headers should be present");
    assert_eq!(route.id_field, Some("user_id".to_string()));
    assert_eq!(route.results_field, Some("data".to_string()));
}

#[test]
fn test_config_deserialization_minimal() {
    let config = Config::from_json(&j(r#"{"routes": {}}"#)).expect("Should deserialize");
    assert_eq!(config.port, Some(3001));
    assert_eq!(config.hostname, Some("localhost".to_string()));
    assert!(config.static_folder.is_none());
    assert_eq!(config.static_route, "/static");
    assert!(config.routes.is_empty());
}

#[test]
fn config_fields_of_the_wrong_type_are_rejected() {
    assert!(Config::from_json(&j(r#"{"port": "80"}"#)).is_err());
    assert!(Config::from_json(&j(r#"{"port": 70000}"#)).is_err());
    assert!(Config::from_json(&j(r#"{"port": -1}"#)).is_err());
    assert!(Config::from_json(&j(r#"{"static_route": null}"#)).is_err());
    assert!(Config::from_json(&j(r#"{"routes": []}"#)).is_err());
    assert!(Config::from_json(&j(r#"{"routes": {"/a": {"method": "GET"}}}"#)).is_err());
    assert!(Config::from_json(&j("[]")).is_err());
    let c = Config::from_json(&j(r#"{"port": null, "hostname": null}"#)).expect("nulls are allowed");
    assert_eq!(c.port, None);
    assert_eq!(c.hostname, None);
    let c = Config::from_json(&j(r#"{"port": 65535}"#)).expect("largest port");
    assert_eq!(c.port, Some(65535));
}

#[test]
fn test_config_serialization() {
    let config = Config {
        port: Some(9000),
        hostname: Some("example.com".to_string()),
        static_folder: Some("assets".to_string()),
        static_route: "/files".to_string(),
        routes: vec![(
            "/test".to_string(),
            ConfigRoute {
                method: Some("POST".to_string()),
                description: Some("Test route".to_string()),
                headers: None,
                id_field: Some("id".to_string()),
                results_field: None,
                response: ConfigResponse::ConfigRouteResponse(ConfigRouteResponse {
                    status: Some(201),
                    body: BodyResponse::Value(j(r#"{"message": "created"}"#)),
                }),
            },
        )],
    };
    let serialized = config.to_json();
    assert_eq!(*field(&serialized, "port"), j("9000"));
    assert_eq!(*field(&serialized, "hostname"), j(r#""example.com""#));
    assert_eq!(*field(&serialized, "static_folder"), j(r#""assets""#));
    assert_eq!(*field(&serialized, "static_route"), j(r#""/files""#));
    assert!(field(&serialized, "routes").is_object());
    let text = config.to_text();
    assert!(text.contains("\"port\":9000"));
}

#[test]
fn test_config_route_default() {
    let route = ConfigRoute::default();
    assert_eq!(route.method, Some("GET".to_string()));
    assert!(route.description.is_none());
    assert!(route.headers.is_none());
    assert_eq!(route.id_field, Some("id".to_string()));
    assert!(route.results_field.is_none());
    match &route.response {
        ConfigResponse::ConfigRouteResponse(response) => {
            assert_eq!(response.status, Some(200));
            assert_eq!(response.body, BodyResponse::Value(j("{}")));
        }
        ConfigResponse::File(_) => panic!("Default response should be ConfigRouteResponse"),
    }
}

#[test]
fn test_config_route_deserialization() {
    let json_route = j(r#"{
        "method": "POST",
        "description": "Create new item",
        "headers": {"Authorization": "Bearer token", "Content-Type": "application/json"},
        "id_field": "item_id",
        "results_field": "items",
        "response": {"status": 201, "body": {"success": true, "message": "Item created"}}
    }"#);
    let route = ConfigRoute::from_json(&json_route).expect("Should deserialize");
    assert_eq!(route.method, Some("POST".to_string()));
    assert_eq!(route.description, Some("Create new item".to_string()));
    let headers = route.headers.expect("Headers should be present");
    assert_eq!(headers.len(), 2, "Should have 2 headers");
    assert!(headers.contains(&("Authorization".to_string(), "Bearer token".to_string())));
    assert_eq!(route.id_field, Some("item_id".to_string()));
    assert_eq!(route.results_field, Some("items".to_string()));
    match &route.response {
        ConfigResponse::ConfigRouteResponse(response) => {
            assert_eq!(response.status, Some(201));
            match &response.body {
                BodyResponse::Value(value) => {
                    assert_eq!(*field(value, "success"), j("true"));
                    assert_eq!(*field(value, "message"), j(r#""Item created""#));
                }
                BodyResponse::Str(_) => panic!("Body should be JSON value"),
            }
        }
        ConfigResponse::File(_) => panic!("Response should be ConfigRouteResponse"),
    }
}

#[test]
fn route_defaults_apply_to_missing_fields() {
    let route = ConfigRoute::from_json(&j(r#"{"response": "users.json"}"#)).expect("route");
    assert_eq!(route.method, Some("GET".to_string()));
    assert_eq!(route.id_field, Some("id".to_string()));
    assert_eq!(route.response, ConfigResponse::File("users.json".to_string()));
    let route = ConfigRoute::from_json(&j(r#"{"method": null, "response": {}}"#)).expect("route");
    assert_eq!(route.method, None);
    assert_eq!(
        route.response,
        ConfigResponse::ConfigRouteResponse(ConfigRouteResponse {
            status: Some(200),
            body: BodyResponse::Value(j("{}")),
        })
    );
    assert!(ConfigRoute::from_json(&j(r#"{"headers": {"a": 1}, "response": {}}"#)).is_err());
    assert!(ConfigRoute::from_json(&j(r#"{"response": {"status": "ok"}}"#)).is_err());
}

#[test]
fn test_body_response_value() {
    let json_value = j(r#"{"key": "value", "number": 42}"#);
    let body = BodyResponse::Value(json_value.duplicate());
    assert!(body.is_value());
    assert!(!body.is_str());
    assert_eq!(body.as_value(), json_value);
    assert_eq!(body.as_str(), "");
}

#[test]
fn test_body_response_string() {
    let text = "Hello, World!".to_string();
    let body = BodyResponse::Str(text.clone());
    assert!(!body.is_value());
    assert!(body.is_str());
    assert_eq!(body.as_value(), JsonValue::Str(text.clone()));
    assert_eq!(body.as_str(), &text);
}

#[test]
fn test_body_response_str() {
    let text = "Test string".to_string();
    let body = BodyResponse::Str(text.clone());
    assert!(!body.is_value());
    assert!(body.is_str());
    assert_eq!(body.as_value(), JsonValue::Str(text.clone()));
    assert_eq!(body.as_str(), &text);
}

#[test]
fn test_config_manager_new() {
    let config_manager = ConfigManager::new(FileSystemManager::new("/tmp/project".to_string()));
    assert!(config_manager.config.routes.is_empty());
    assert_eq!(config_manager.get_root(), "/tmp/project");
}

#[test]
fn test_config_manager_load_config_success() {
    let config_json = r#"{
        "port": 8080,
        "hostname": "0.0.0.0",
        "static_folder": "public",
        "static_route": "/assets",
        "routes": {
            "/api/test": {
                "method": "GET",
                "description": "Test endpoint",
                "response": {"status": 200, "body": {"message": "Hello, World!"}}
            }
        }
    }"#;
    let mut config_manager = manager();
    let result = config_manager.load_config("config.json", config_json.as_bytes(), &no_files());
    assert!(result.is_ok(), "Should load configuration successfully");
    assert_eq!(config_manager.config.port, Some(8080));
    assert_eq!(config_manager.config.hostname, Some("0.0.0.0".to_string()));
    assert_eq!(config_manager.config.routes.len(), 1);
    let route = route(&config_manager.config, "[GET] /api/test").expect("Route should exist");
    assert_eq!(route.method, Some("GET".to_string()));
}

#[test]
fn test_config_manager_load_config_with_external_files() {
    let external_response = r#"{"status": 200, "body": {"users": [{"id": 1, "name": "John"}, {"id": 2, "name": "Jane"}]}}"#;
    let config_json = r#"{
        "port": 3000,
        "routes": {
            "/api/users": {"method": "GET", "description": "Get all users", "response": "users_response.json"}
        }
    }"#;
    let parsed = ConfigManager::parse_config("config.json", config_json.as_bytes()).expect("parse");
    assert_eq!(parsed.external_files(), vec!["users_response.json".to_string()]);
    let files = vec![("users_response.json".to_string(), external_response.as_bytes().to_vec())];
    let mut config_manager = manager();
    let result = config_manager.load_config("config.json", config_json.as_bytes(), &files);
    assert!(result.is_ok(), "Should load configuration with external files successfully");
    let route = route(&config_manager.config, "[GET] /api/users").expect("Route should exist");
    match &route.response {
        ConfigResponse::ConfigRouteResponse(response) => {
            assert_eq!(response.status, Some(200));
            match &response.body {
                BodyResponse::Value(value) => {
                    let users = field(value, "users");
                    assert!(users.is_array());
                    match users {
                        JsonValue::Array(a) => assert_eq!(a.len(), 2, "Should have 2 users"),
                        _ => panic!("users should be an array"),
                    }
                }
                BodyResponse::Str(_) => panic!("Body should be JSON value"),
            }
        }
        ConfigResponse::File(_) => panic!("Response should be resolved to ConfigRouteResponse"),
    }
}

#[test]
fn test_config_manager_load_config_invalid_json() {
    let mut config_manager = manager();
    let result = config_manager.load_config("invalid.json", b"{ invalid json content", &no_files());
    assert!(result.is_err(), "Should fail when JSON content is invalid");
    match result {
        Err(FileSystemError::Utf8Decode { path, .. }) => assert_eq!(path, "invalid.json"),
        _ => panic!("Expected a decode error"),
    }
    assert!(config_manager.config.routes.is_empty());
}

#[test]
fn test_config_manager_load_config_empty_routes() {
    let mut config_manager = manager();
    let result = config_manager.load_config("config.json", br#"{"port": 3000, "routes": {}}"#, &no_files());
    assert!(result.is_err(), "Should fail when routes are empty");
    match result {
        Err(FileSystemError::Validation { reason, .. }) => {
            assert!(reason.contains("routes are empty"), "Error should mention empty routes: {reason}");
        }
        _ => panic!("Expected a validation error for empty routes"),
    }
    assert_eq!(config_manager.config.port, Some(3001), "nothing is installed");
}

#[test]
fn test_config_manager_save_config() {
    let config_manager = manager();
    let config = Config {
        port: Some(9000),
        hostname: Some("example.com".to_string()),
        static_folder: Some("assets".to_string()),
        static_route: "/files".to_string(),
        routes: vec![(
            "/api/test".to_string(),
            ConfigRoute {
                method: Some("POST".to_string()),
                description: Some("Test endpoint".to_string()),
                headers: None,
                id_field: Some("id".to_string()),
                results_field: None,
                response: ConfigResponse::ConfigRouteResponse(ConfigRouteResponse {
                    status: Some(201),
                    body: BodyResponse::Value(j(r#"{"message": "success"}"#)),
                }),
            },
        )],
    };
    let saved_content = config_manager.save_config(&config);
    let loaded_config = Config::from_json(&j(&saved_content)).expect("Should parse saved configuration");
    assert_eq!(loaded_config.port, Some(9000));
    assert_eq!(loaded_config.hostname, Some("example.com".to_string()));
    assert_eq!(loaded_config.routes.len(), 1);
}

#[test]
fn test_config_manager_get_config_file_path() {
    let config_manager = manager();
    assert!(config_manager.get_config_file_path(&vec![false, false, false]).is_none());
    let found = config_manager.get_config_file_path(&vec![true, false, false]).expect("db.json");
    assert_eq!(found, "/tmp/project/db.json");
    let found = config_manager.get_config_file_path(&vec![true, true, false]).expect("db.json");
    assert_eq!(found, "/tmp/project/db.json", "Should prioritize db.json over .db.json");
    let found = config_manager.get_config_file_path(&vec![false, true, false]).expect(".db.json");
    assert_eq!(found, "/tmp/project/.db.json");
    let found = config_manager.get_config_file_path(&vec![false, true, true]).expect(".db.json");
    assert_eq!(found, "/tmp/project/.db.json", "Should prioritize .db.json over json-echo.json");
    let found = config_manager.get_config_file_path(&vec![false, false, true]).expect("json-echo.json");
    assert_eq!(found, "/tmp/project/json-echo.json");
}

#[test]
fn test_config_manager_load_config_missing_external_file() {
    let config_json = r#"{"port": 3000, "routes": {"/api/users": {"method": "GET", "response": "missing_file.json"}}}"#;
    let mut config_manager = manager();
    let result = config_manager.load_config("config.json", config_json.as_bytes(), &no_files());
    assert!(result.is_err(), "Should fail when external file is missing");
    match result {
        Err(FileSystemError::Io { path, message }) => {
            assert_eq!(path, "missing_file.json");
            assert!(message.contains("[GET] /api/users"), "the error names the route: {message}");
        }
        _ => panic!("Expected an I/O error naming the file"),
    }
    assert!(config_manager.config.routes.is_empty(), "no configuration is installed");
}

#[test]
fn invalid_external_file_is_a_decode_error() {
    let config_json = r#"{"routes": {"/a": {"response": "a.json"}}}"#;
    let files = vec![("a.json".to_string(), b"[1, 2]".to_vec())];
    let mut config_manager = manager();
    match config_manager.load_config("config.json", config_json.as_bytes(), &files) {
        Err(FileSystemError::Utf8Decode { path, message }) => {
            assert_eq!(path, "a.json");
            assert!(message.contains("[GET] /a"));
        }
        _ => panic!("Expected a decode error naming the file"),
    }
}

#[test]
fn test_config_manager_roundtrip() {
    let mut config_manager = manager();
    let written_config = Config {
        port: Some(8080),
        hostname: Some("0.0.0.0".to_string()),
        static_folder: Some("public".to_string()),
        static_route: "/assets".to_string(),
        routes: vec![
            (
                "/api/users".to_string(),
                ConfigRoute {
                    method: Some("GET".to_string()),
                    description: Some("Get all users".to_string()),
                    headers: Some(vec![
                        ("Authorization".to_string(), "Bearer token".to_string()),
                        ("Content-Type".to_string(), "application/json".to_string()),
                    ]),
                    id_field: Some("user_id".to_string()),
                    results_field: Some("data".to_string()),
                    response: ConfigResponse::ConfigRouteResponse(ConfigRouteResponse {
                        status: Some(200),
                        body: BodyResponse::Value(j(
                            r#"{"users": [{"user_id": 1, "name": "John"}, {"user_id": 2, "name": "Jane"}]}"#,
                        )),
                    }),
                },
            ),
            (
                "/api/health".to_string(),
                ConfigRoute {
                    method: Some("GET".to_string()),
                    description: Some("Health check".to_string()),
                    headers: None,
                    id_field: Some("id".to_string()),
                    results_field: None,
                    response: ConfigResponse::ConfigRouteResponse(ConfigRouteResponse {
                        status: Some(200),
                        body: BodyResponse::Value(j(r#"{"status": "ok"}"#)),
                    }),
                },
            ),
        ],
    };
    let saved = config_manager.save_config(&written_config);
    let load_result = config_manager.load_config("roundtrip.json", saved.as_bytes(), &no_files());
    assert!(load_result.is_ok(), "Should load configuration successfully");
    let loaded_config = &config_manager.config;
    assert_eq!(loaded_config.port, written_config.port);
    assert_eq!(loaded_config.hostname, written_config.hostname);
    assert_eq!(loaded_config.static_folder, written_config.static_folder);
    assert_eq!(loaded_config.static_route, written_config.static_route);
    assert_eq!(loaded_config.routes.len(), written_config.routes.len());
    let users_route = route(loaded_config, "[GET] /api/users").expect("Users route should exist");
    let written_users_route = route(&written_config, "/api/users").expect("written route");
    assert_eq!(users_route.method, written_users_route.method);
    assert_eq!(users_route.description, written_users_route.description);
    assert_eq!(users_route.id_field, written_users_route.id_field);
    assert_eq!(users_route.results_field, written_users_route.results_field);
}

// Route keys.

#[test]
fn canonical_key_is_left_as_it_is() {
    let c = ConfigManager::parse_config("c.json", br#"{"routes": {"[GET] /x": {"response": {}}}}"#).expect("parse");
    assert_eq!(c.routes[0].0, "[GET] /x");
    let c = ConfigManager::parse_config("c.json", br#"{"routes": {"[GET] /x": {"method": null, "response": {}}}}"#)
        .expect("parse");
    assert_eq!(c.routes[0].0, "[GET] /x");
}

#[test]
fn bracketed_method_is_used_when_the_route_names_none() {
    let c = ConfigManager::parse_config("c.json", br#"{"routes": {"[ post ]  /users ": {"method": null, "response": {}}}}"#)
        .expect("parse");
    assert_eq!(c.routes[0].0, "[POST] /users");
    assert_eq!(c.routes[0].1.method, Some("POST".to_string()));
}

#[test]
fn the_route_method_wins_over_the_bracketed_one() {
    let c = ConfigManager::parse_config("c.json", br#"{"routes": {"[POST] /users": {"method": "PUT", "response": {}}}}"#)
        .expect("parse");
    assert_eq!(c.routes[0].0, "[PUT] /users");
    // a missing method field reads as GET
    let c = ConfigManager::parse_config("c.json", br#"{"routes": {"[POST] /users": {"response": {}}}}"#)
        .expect("parse");
    assert_eq!(c.routes[0].0, "[GET] /users");
}

#[test]
fn a_key_without_closing_bracket_is_all_path() {
    let c = ConfigManager::parse_config("c.json", br#"{"routes": {"[GET /x": {"method": null, "response": {}}}}"#)
        .expect("parse");
    assert_eq!(c.routes[0].0, "[GET] [GET /x");
}

#[test]
fn keys_that_normalize_alike_collapse_into_one() {
    let c = ConfigManager::parse_config(
        "c.json",
        br#"{"routes": {"/a": {"response": {}}, "[GET] /a": {"response": {"status": 201}}}}"#,
    )
    .expect("parse");
    assert_eq!(c.routes.len(), 1);
}

// Whole loads.

#[test]
fn plain_route_loads_under_get_key() {
    let text = br#"{"routes": {"/users": {"response": {"status": 200, "body": {"users": [{"id":1,"name":"John"}]}}}}}"#;
    let mut m = manager();
    assert!(m.load_config("db.json", text, &no_files()).is_ok());
    assert_eq!(m.config.routes.len(), 1);
    assert_eq!(m.config.routes[0].0, "[GET] /users");
    let mut db = json_echo_core::Database::new();
    db.populate(m.config.routes);
    let model = db.get_model("[GET] /users").expect("model");
    assert_eq!(model.get_data(), BodyResponse::Value(j(r#"{"users": [{"id":1,"name":"John"}]}"#)));
}

#[test]
fn results_field_projects_the_array() {
    let text = br#"{"routes": {"/users": {"results_field": "users", "response": {"status": 200, "body": {"users": [{"id":1,"name":"John"}]}}}}}"#;
    let mut m = manager();
    assert!(m.load_config("db.json", text, &no_files()).is_ok());
    let mut db = json_echo_core::Database::new();
    db.populate(m.config.routes);
    let model = db.get_model("[GET] /users").expect("model");
    assert_eq!(model.get_data(), BodyResponse::Value(j(r#"[{"id":1,"name":"John"}]"#)));
}

#[test]
fn empty_routes_and_missing_file_install_nothing() {
    let mut m = manager();
    assert!(matches!(
        m.load_config("db.json", br#"{"routes": {}}"#, &no_files()),
        Err(FileSystemError::Validation { .. })
    ));
    assert!(matches!(
        m.load_config("db.json", br#"{"routes": {"/a": {"response": "nope.json"}}}"#, &no_files()),
        Err(FileSystemError::Io { .. })
    ));
    assert!(m.config.routes.is_empty());
}

#[test]
fn test_config_response_string() {
    let file_path = "data/users.json".to_string();
    let route = ConfigRoute::from_json(&j(r#"{"response": "data/users.json"}"#)).expect("route");
    assert_eq!(route.response, ConfigResponse::File(file_path.clone()));
    let serialized = route.to_json();
    assert_eq!(*field(&serialized, "response"), JsonValue::Str(file_path.clone()), "Should serialize as plain string");
    let back = ConfigRoute::from_json(&serialized).expect("Should deserialize");
    assert_eq!(back.response, ConfigResponse::File(file_path), "Should preserve file path");
}

#[test]
fn test_config_response_structured() {
    let route = ConfigRoute {
        method: Some("GET".to_string()),
        description: None,
        headers: None,
        id_field: Some("id".to_string()),
        results_field: None,
        response: ConfigResponse::ConfigRouteResponse(ConfigRouteResponse {
            status: Some(404),
            body: BodyResponse::Value(j(r#"{"error": "Not found"}"#)),
        }),
    };
    let serialized = route.to_json();
    let response = field(&serialized, "response");
    assert!(response.is_object(), "Should serialize as JSON object");
    assert_eq!(*field(response, "status"), j("404"), "Should preserve status code");
    let back = ConfigRoute::from_json(&serialized).expect("Should deserialize");
    match back.response {
        ConfigResponse::ConfigRouteResponse(r) => {
            assert_eq!(r.status, Some(404));
            match r.body {
                BodyResponse::Value(value) => assert_eq!(*field(&value, "error"), j(r#""Not found""#)),
                BodyResponse::Str(_) => panic!("Body should be JSON value"),
            }
        }
        ConfigResponse::File(_) => panic!("Should deserialize as ConfigRouteResponse variant"),
    }
}
