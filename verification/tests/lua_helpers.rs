use cycbox::lua::redis::redis_connection_url;
use cycbox::lua::http::post_headers;
use cycbox::lua::timescaledb::{SqlParam, SqlParamError, SqlType, SqlWrite};
use cycbox::lua::discord::{check_webhook_request, validate_content, validate_username, validate_webhook_url};
use cycbox::lua::influxdb::{check_v2_write, check_v3_write, join_lines, v2_write_endpoint, v3_write_endpoint, InfluxError, InfluxField};
use cycbox::lua::notify::{check_ntfy, check_smtp, join_tags, NtfyError, SmtpError, TlsMode};
use cycbox::lua::timescaledb::{build_batch_insert, build_single_insert, CellProblem, LuaCell, SqlBuildError};

#[test]
fn discord_validation() {
    assert_eq!(validate_webhook_url("").as_deref(), Some("webhook_url cannot be empty"));
    assert_eq!(validate_webhook_url("https://example.com/x").as_deref(), Some("invalid Discord webhook URL"));
    assert_eq!(validate_webhook_url("https://discord.com/api/webhooks/1/abc"), None);
    assert_eq!(validate_webhook_url("https://discordapp.com/api/webhooks/1/abc"), None);
    assert_eq!(validate_content("").as_deref(), Some("content cannot be empty"));
    let long = "x".repeat(2001);
    assert_eq!(validate_content(&long).as_deref(), Some("content exceeds 2000 characters (got 2001)"));
    assert_eq!(validate_content(&"x".repeat(2000)), None);
    assert_eq!(validate_username(&Some("u".repeat(81))).as_deref(), Some("username exceeds 80 characters (got 81)"));
    assert_eq!(validate_username(&Some("bot".to_string())), None);
    assert_eq!(validate_username(&None), None);
    assert_eq!(
        check_webhook_request("https://discord.com/api/webhooks/1/a", "", &None).as_deref(),
        Some("discord_send: content cannot be empty")
    );
}

#[test]
fn influx_checks() {
    assert_eq!(check_v2_write("", "t", "o", "b", None, None), Err(InfluxError::Empty(InfluxField::Url)));
    assert_eq!(check_v2_write("u", "t", "o", "b", Some(&b""[..]), None), Err(InfluxError::Empty(InfluxField::LineData)));
    assert_eq!(check_v2_write("u", "t", "o", "b", Some(&b"m v=1"[..]), None), Ok(b"ns".to_vec()));
    assert_eq!(check_v2_write("u", "t", "o", "b", None, Some("ms")), Ok(b"ms".to_vec()));
    assert_eq!(check_v2_write("u", "t", "o", "b", None, Some("second")), Err(InfluxError::InvalidPrecision));
    let s = check_v3_write("u", "t", "db", None, None, None, Some(true)).ok().unwrap();
    assert_eq!(s.precision, b"auto".to_vec());
    assert!(s.accept_partial);
    assert!(s.no_sync);
    assert!(matches!(check_v3_write("u", "t", "", None, None, None, None), Err(InfluxError::Empty(InfluxField::Db))));
    assert_eq!(join_lines(&vec![b"a".to_vec(), b"b".to_vec()]), Ok(b"a\nb".to_vec()));
    assert_eq!(join_lines(&vec![]), Err(InfluxError::NoLines));
    assert_eq!(join_lines(&vec![b"a".to_vec(), Vec::new()]), Err(InfluxError::EmptyLine(2)));
    assert_eq!(v2_write_endpoint("http://h:8086//"), b"http://h:8086/api/v2/write".to_vec());
    assert_eq!(v3_write_endpoint("http://h"), b"http://h/api/v3/write_lp".to_vec());
}

fn cells(v: Vec<LuaCell>) -> Option<Vec<LuaCell>> {
    Some(v)
}

#[test]
fn sql_insert_statements() {
    let cols = vec!["time".to_string(), "value".to_string()];
    let (sql, ps) = build_single_insert("m", &cols, &vec![LuaCell::Integer(1), LuaCell::Nil]).unwrap();
    assert_eq!(sql, "INSERT INTO m (time, value) VALUES ($1, $2)");
    assert_eq!(format!("{:?}", ps), "[Int(1), Null]");
    assert_eq!(
        build_single_insert("m", &cols, &vec![LuaCell::Nil, LuaCell::Nil, LuaCell::Nil]).unwrap_err(),
        SqlBuildError::CountMismatch { columns: 2, values: 3 }
    );
    assert_eq!(build_single_insert("m", &vec![], &vec![]).unwrap_err(), SqlBuildError::EmptyColumns);
    assert_eq!(
        build_single_insert("m", &cols, &vec![LuaCell::Nil, LuaCell::Other]).unwrap_err(),
        SqlBuildError::BadValue { index: 2, problem: CellProblem::Unsupported }
    );
    let rows = vec![
        cells(vec![LuaCell::Integer(1), LuaCell::Number(2.5f64.to_bits())]),
        cells(vec![LuaCell::Integer(2), LuaCell::Str(b"x".to_vec())]),
    ];
    let (sql, ps) = build_batch_insert("m", &cols, &rows).unwrap();
    assert_eq!(sql, "INSERT INTO m (time, value) VALUES ($1, $2), ($3, $4)");
    assert_eq!(format!("{:?}", ps), format!("[Int(1), Float({}), Int(2), Text(\"x\")]", 2.5f64.to_bits()));
    assert_eq!(build_batch_insert("t", &cols, &vec![]).unwrap_err(), SqlBuildError::EmptyRows);
    let short = vec![cells(vec![LuaCell::Nil, LuaCell::Nil]), cells(vec![LuaCell::Nil])];
    assert_eq!(build_batch_insert("t", &cols, &short).unwrap_err(), SqlBuildError::RowWidth { row: 2, len: 1, expected: 2 });
    let not_table = vec![cells(vec![LuaCell::Nil, LuaCell::Nil]), None];
    assert_eq!(build_batch_insert("t", &cols, &not_table).unwrap_err(), SqlBuildError::RowNotTable { row: 2 });
    let bad = vec![cells(vec![LuaCell::Nil, LuaCell::Str(vec![0xFF])]), cells(vec![LuaCell::Other])];
    assert_eq!(
        build_batch_insert("t", &cols, &bad).unwrap_err(),
        SqlBuildError::BadCell { row: 1, col: 2, problem: CellProblem::InvalidUtf8 }
    );
    let many = vec![cells(vec![LuaCell::Nil, LuaCell::Nil]); 40000];
    assert_eq!(
        build_batch_insert("t", &cols, &many).unwrap_err(),
        SqlBuildError::TooManyParams { columns: 2, rows: 40000, total: 80000 }
    );
}

#[test]
fn smtp_and_ntfy_checks() {
    assert_eq!(check_smtp("mail", None, None, true, false, 1), Ok((TlsMode::StartTls, 587)));
    assert_eq!(check_smtp("mail", Some("tls"), None, true, false, 1), Ok((TlsMode::Tls, 465)));
    assert_eq!(check_smtp("mail", Some("none"), Some(2525), false, true, 1), Ok((TlsMode::Plain, 2525)));
    assert_eq!(check_smtp("", None, None, true, true, 1), Err(SmtpError::ServerEmpty));
    assert_eq!(check_smtp("m", Some("ssl"), None, true, true, 1), Err(SmtpError::InvalidTls));
    assert_eq!(check_smtp("m", None, None, false, false, 1), Err(SmtpError::NoBody));
    assert_eq!(check_smtp("m", None, None, true, false, 0), Err(SmtpError::NoRecipients));
    assert_eq!(check_ntfy("alerts", "https://ntfy.sh/", Some("high")), Ok(b"https://ntfy.sh/alerts".to_vec()));
    assert_eq!(check_ntfy("", "s", None), Err(NtfyError::TopicEmpty));
    assert_eq!(check_ntfy("t", "s", Some("loud")), Err(NtfyError::InvalidPriority));
    assert_eq!(join_tags(&vec![b"a".to_vec(), b"b".to_vec()]), Some(b"a,b".to_vec()));
    assert_eq!(join_tags(&vec![]), None);
}

#[test]
fn sql_params_bind_by_column_type() {
    assert!(matches!(SqlParam::Null.to_sql(SqlType::Int4), Ok(SqlWrite::Null)));
    assert!(matches!(SqlParam::Text("a".to_string()).to_sql(SqlType::Varchar), Ok(SqlWrite::Text(s)) if s == "a"));
    assert!(matches!(SqlParam::Text("a".to_string()).to_sql(SqlType::Int8), Err(SqlParamError::TextType(SqlType::Int8))));
    assert!(matches!(SqlParam::Int(-5).to_sql(SqlType::Int2), Ok(SqlWrite::Int2(-5))));
    assert!(matches!(SqlParam::Int(40000).to_sql(SqlType::Int2), Err(SqlParamError::Int2Range(40000))));
    assert!(matches!(SqlParam::Int(40000).to_sql(SqlType::Int4), Ok(SqlWrite::Int4(40000))));
    assert!(matches!(SqlParam::Int(1 << 40).to_sql(SqlType::Int4), Err(SqlParamError::Int4Range(_))));
    assert!(matches!(SqlParam::Int(1 << 40).to_sql(SqlType::Numeric), Ok(SqlWrite::Int8(v)) if v == 1 << 40));
    assert!(matches!(SqlParam::Int(1).to_sql(SqlType::Text), Err(SqlParamError::IntType(SqlType::Text))));
    assert!(matches!(SqlParam::Bool(true).to_sql(SqlType::Bool), Ok(SqlWrite::Bool(true))));
    assert!(matches!(SqlParam::Bool(true).to_sql(SqlType::Int2), Err(SqlParamError::BoolType(SqlType::Int2))));
    assert!(SqlParam::accepts(SqlType::Name));
    assert!(!SqlParam::accepts(SqlType::Other));
}

#[test]
fn sql_float_to_real_checks_its_range() {
    let max = (f32::MAX as f64).to_bits();
    assert!(matches!(SqlParam::Float(max).to_sql(SqlType::Float4), Ok(SqlWrite::Float4(b)) if b == max));
    let big = 1e39f64.to_bits();
    assert!(matches!(SqlParam::Float(big).to_sql(SqlType::Float4), Err(SqlParamError::Float4Range(b)) if b == big));
    let neg = (-1e39f64).to_bits();
    assert!(matches!(SqlParam::Float(neg).to_sql(SqlType::Float4), Err(SqlParamError::Float4Range(_))));
    assert!(matches!(SqlParam::Float(f64::NAN.to_bits()).to_sql(SqlType::Float4), Ok(SqlWrite::Float4(_))));
    assert!(matches!(SqlParam::Float(f64::INFINITY.to_bits()).to_sql(SqlType::Float4), Ok(SqlWrite::Float4(_))));
    assert!(matches!(SqlParam::Float(big).to_sql(SqlType::Float8), Ok(SqlWrite::Float8(b)) if b == big));
    assert!(matches!(SqlParam::Float(big).to_sql(SqlType::Bool), Err(SqlParamError::FloatType(SqlType::Bool))));
}

#[test]
fn http_post_defaults_content_type() {
    let h = post_headers(vec![("X-Key".to_string(), "1".to_string())]);
    assert_eq!(h.len(), 2);
    assert_eq!(h[0], ("content-type".to_string(), "application/octet-stream".to_string()));
    assert_eq!(h[1], ("X-Key".to_string(), "1".to_string()));
    let own = vec![("Content-Type".to_string(), "text/plain".to_string())];
    assert_eq!(post_headers(own.clone()), own);
    assert_eq!(post_headers(Vec::new()).len(), 1);
}

#[test]
fn redis_url_carries_credentials() {
    assert_eq!(redis_connection_url("", None, Some("pw")), None);
    assert_eq!(redis_connection_url("redis://host:6379", None, None).as_deref(), Some("redis://host:6379"));
    assert_eq!(redis_connection_url("redis://host:6379", Some("u"), None).as_deref(), Some("redis://host:6379"));
    assert_eq!(redis_connection_url("redis://host:6379", None, Some("pw")).as_deref(), Some("redis://:pw@host:6379"));
    assert_eq!(
        redis_connection_url("redis://host:6379/0", Some("alice"), Some("s3")).as_deref(),
        Some("redis://alice:s3@host:6379/0")
    );
    assert_eq!(redis_connection_url("rediss://host", None, Some("pw")).as_deref(), Some("rediss://host"));
}

#[test]
fn discord_limits_count_characters() {
    let content = "é".repeat(1500);
    assert_eq!(validate_content(&content), None);
    assert_eq!(validate_content(&"a".repeat(2001)).as_deref(), Some("content exceeds 2000 characters (got 2001)"));
    assert_eq!(validate_content(&"é".repeat(2001)).as_deref(), Some("content exceeds 2000 characters (got 2001)"));
    assert_eq!(validate_username(&Some("é".repeat(50))), None);
    assert_eq!(validate_username(&None), None);
    assert_eq!(validate_username(&Some("a".repeat(81))).as_deref(), Some("username exceeds 80 characters (got 81)"));
}
