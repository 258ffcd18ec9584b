use dysk::args::{ArgsBuilder, Cols, TriBool, Units};
use dysk::col::{Col, Order, ValueKind};
use dysk::filter::{parse_tokens, tokenize, Expr, Filter, FilterErrorKind, Token};
use dysk::overlay::{LustreComponentType, LustreData, LustreInfo};
use dysk::pipeline::{get_filtered_mounts, get_mounts};
use dysk::record::{decimal, Inodes, MountRecord, Stats};
use dysk::sorting::Sorting;
use dysk::value::{parse_literal, CmpOp, LiteralError, Value};

const G: u64 = 1024 * 1024 * 1024;

fn rec(major: u32, fs: &str, fs_type: &str, size: u64, used: u64) -> MountRecord {
    MountRecord {
        id: Some(major as u64),
        dev_major: major,
        dev_minor: 0,
        fs: fs.to_string(),
        fs_type: fs_type.to_string(),
        mount_point: format!("/mnt/{}", fs),
        label: None,
        disk: None,
        uuid: None,
        part_uuid: None,
        remote: false,
        stats: Some(Stats { size, used, available: size - used }),
        inodes: Some(Inodes { files: 100, used: 10, free: 90 }),
    }
}

fn bare(major: u32, fs: &str) -> MountRecord {
    MountRecord {
        id: None,
        dev_major: major,
        dev_minor: 0,
        fs: fs.to_string(),
        fs_type: "proc".to_string(),
        mount_point: format!("/{}", fs),
        label: None,
        disk: None,
        uuid: None,
        part_uuid: None,
        remote: false,
        stats: None,
        inodes: None,
    }
}

fn names(v: &[MountRecord]) -> Vec<String> {
    v.iter().map(|r| r.fs.clone()).collect()
}

fn sample() -> Vec<MountRecord> {
    vec![
        rec(1, "a", "ext4", 20 * G, 19 * G),
        rec(2, "b", "tmpfs", 2 * G, G),
        rec(3, "c", "ext4", 50 * G, 10 * G),
        rec(4, "d", "xfs", 20 * G, 2 * G),
        bare(5, "e"),
    ]
}

#[test]
fn test_args_builder() {
    let args = ArgsBuilder::new().all(true).json(true).units(Units::Binary).build();
    assert!(args.all);
    assert!(args.json);
    assert_eq!(args.units, Units::Binary);
}

#[test]
fn builder_defaults_and_setters() {
    let args = ArgsBuilder::new().build();
    assert!(!args.all && !args.json && !args.csv);
    assert_eq!(args.units, Units::Si);
    assert_eq!(args.sort, Sorting::new(Col::Size, Order::Desc));
    assert_eq!(args.cols.cols.len(), 7);
    assert!(args.filter.is_none());
    assert_eq!(args.remote_stats, TriBool::Auto);
    let args = ArgsBuilder::new()
        .csv(true)
        .path("/home".to_string())
        .cols(Cols { cols: vec![Col::Size] })
        .sort(Sorting::new(Col::Type, Order::Asc))
        .filter(Filter::parse("size>1").unwrap())
        .build();
    assert!(args.csv);
    assert_eq!(args.path.as_deref(), Some("/home"));
    assert_eq!(args.cols.cols, vec![Col::Size]);
    assert_eq!(args.sort.col, Col::Type);
    assert!(args.filter.is_some());
    assert!(TriBool::Auto.unwrap_or(true));
    assert!(!TriBool::No.unwrap_or(true));
}

#[test]
fn literal_binary_and_si_sizes() {
    assert!(matches!(parse_literal("10G", ValueKind::ByteSize), Ok(Value::Bytes(b)) if b == 10 * 1024 * 1024 * 1024));
    assert!(matches!(parse_literal("10GB", ValueKind::ByteSize), Ok(Value::Bytes(b)) if b == 10_000_000_000));
    assert!(matches!(parse_literal("3k", ValueKind::ByteSize), Ok(Value::Bytes(3072))));
    assert!(matches!(parse_literal("512", ValueKind::ByteSize), Ok(Value::Bytes(512))));
    assert!(matches!(parse_literal("1P", ValueKind::ByteSize), Ok(Value::Bytes(b)) if b == 1u64 << 50));
}

#[test]
fn literal_percentage_out_of_range() {
    assert!(matches!(parse_literal("150%", ValueKind::Percentage), Err(LiteralError::OutOfRange)));
    assert!(matches!(parse_literal("100%", ValueKind::Percentage), Ok(Value::Percent(100, 100))));
    assert!(matches!(parse_literal("0%", ValueKind::Percentage), Ok(Value::Percent(0, 100))));
    assert!(matches!(parse_literal("90", ValueKind::Percentage), Err(LiteralError::Malformed)));
    assert!(matches!(parse_literal("5%%", ValueKind::Percentage), Err(LiteralError::Malformed)));
}

#[test]
fn literal_errors() {
    assert!(matches!(parse_literal("10X", ValueKind::ByteSize), Err(LiteralError::BadUnit)));
    assert!(matches!(parse_literal("G", ValueKind::ByteSize), Err(LiteralError::Malformed)));
    assert!(matches!(parse_literal("20000P", ValueKind::ByteSize), Err(LiteralError::Overflow)));
    assert!(matches!(parse_literal("18446744073709551616", ValueKind::PlainNumber), Err(LiteralError::Overflow)));
    assert!(matches!(parse_literal("18446744073709551615", ValueKind::PlainNumber), Ok(Value::Number(u64::MAX))));
    assert!(matches!(parse_literal("12a", ValueKind::PlainNumber), Err(LiteralError::Malformed)));
    assert!(matches!(parse_literal("TRUE", ValueKind::Boolean), Ok(Value::Bool(true))));
    assert!(matches!(parse_literal("false", ValueKind::Boolean), Ok(Value::Bool(false))));
    assert!(matches!(parse_literal("yes", ValueKind::Boolean), Err(LiteralError::Malformed)));
    assert!(matches!(parse_literal("a b", ValueKind::Text), Ok(Value::Text(ref s)) if s == "a b"));
}

#[test]
fn column_names() {
    assert_eq!(Col::parse("SIZE").unwrap(), Col::Size);
    assert_eq!(Col::parse("use").unwrap(), Col::Use);
    assert_eq!(Col::parse("Lustre_Uuid").unwrap(), Col::LustreUuid);
    let e = Col::parse("siz").unwrap_err();
    assert_eq!(e.raw, "siz");
    assert_eq!(Col::all().len(), 24);
    for c in Col::all() {
        assert_eq!(Col::parse(c.name()).unwrap(), c);
    }
    assert_eq!(Col::Size.default_sort_order(), Order::Desc);
    assert_eq!(Col::Type.default_sort_order(), Order::Asc);
    assert_eq!(Col::Size.title(), "size");
}

#[test]
fn sort_directive_parsing() {
    assert_eq!(Sorting::parse("size").unwrap(), Sorting::new(Col::Size, Order::Desc));
    assert_eq!(Sorting::parse("type").unwrap(), Sorting::new(Col::Type, Order::Asc));
    assert_eq!(Sorting::parse("size-asc").unwrap(), Sorting::new(Col::Size, Order::Asc));
    assert_eq!(Sorting::parse("Type DESC").unwrap(), Sorting::new(Col::Type, Order::Desc));
    assert_eq!(Sorting::parse("use-a").unwrap(), Sorting::new(Col::Use, Order::Asc));
    assert_eq!(Sorting::parse("free de").unwrap(), Sorting::new(Col::Free, Order::Desc));
    let e = Sorting::parse("bogus").unwrap_err();
    assert_eq!(e.raw, "bogus");
    assert!(e.message().contains("can't be parsed as a sort expression"));
    assert!(Sorting::parse("size-up").is_err());
    assert!(Sorting::parse("size-").is_err());
    assert!(Sorting::parse("size-ascending").is_err());
    assert_eq!("type-d".parse::<Sorting>().unwrap(), Sorting::new(Col::Type, Order::Desc));
}

#[test]
fn sort_directive_round_trip() {
    for c in Col::all() {
        for o in [Order::Asc, Order::Desc] {
            let d = Sorting::new(c, o);
            let text = d.to_directive();
            assert_eq!(Sorting::parse(&text).unwrap(), d);
        }
    }
    assert_eq!(Sorting::new(Col::Size, Order::Desc).to_directive(), "size-desc");
    assert_eq!(Sorting::default(), Sorting::new(Col::Size, Order::Desc));
}

#[test]
fn sort_descending_reverses_ties() {
    let mut asc = sample();
    Sorting::new(Col::Size, Order::Asc).sort(&mut asc);
    assert_eq!(names(&asc), vec!["b", "a", "d", "c", "e"]);
    let mut desc = sample();
    Sorting::new(Col::Size, Order::Desc).sort(&mut desc);
    assert_eq!(names(&desc), vec!["e", "c", "d", "a", "b"]);
    let mut by_type = sample();
    Sorting::new(Col::Type, Order::Asc).sort(&mut by_type);
    assert_eq!(names(&by_type), vec!["a", "c", "e", "b", "d"]);
    let mut by_use = sample();
    Sorting::new(Col::Use, Order::Desc).sort(&mut by_use);
    assert_eq!(names(&by_use), vec!["e", "a", "b", "c", "d"]);
}

fn overlay() -> LustreData {
    LustreData {
        is_available: true,
        entries: vec![
            LustreInfo {
                dev_major: 3,
                dev_minor: 0,
                uuid: "fs-OST0001".to_string(),
                component_type: LustreComponentType::OST,
                component_index: Some(1),
            },
            LustreInfo {
                dev_major: 1,
                dev_minor: 0,
                uuid: "fs-MDT0000".to_string(),
                component_type: LustreComponentType::MDT,
                component_index: None,
            },
        ],
    }
}

#[test]
fn sort_with_unavailable_overlay_ties_all() {
    let mut v = sample();
    Sorting::new(Col::LustreUuid, Order::Asc).sort_with_lustre(&mut v, &LustreData::new());
    assert_eq!(names(&v), vec!["a", "b", "c", "d", "e"]);
    let mut v = sample();
    Sorting::new(Col::LustreIndex, Order::Desc).sort_with_lustre(&mut v, &LustreData::new());
    assert_eq!(names(&v), vec!["e", "d", "c", "b", "a"]);
    let mut v = sample();
    Sorting::new(Col::LustreIndex, Order::Asc).sort(&mut v);
    assert_eq!(names(&v), vec!["a", "b", "c", "d", "e"]);
}

#[test]
fn sort_with_overlay_data() {
    let d = overlay();
    let mut v = sample();
    Sorting::new(Col::LustreComponent, Order::Asc).sort_with_lustre(&mut v, &d);
    assert_eq!(names(&v), vec!["a", "c", "b", "d", "e"]);
    let mut v = sample();
    Sorting::new(Col::LustreIndex, Order::Asc).sort_with_lustre(&mut v, &d);
    assert_eq!(names(&v), vec!["c", "a", "b", "d", "e"]);
    let mut v = sample();
    Sorting::new(Col::LustreUuid, Order::Asc).sort_with_lustre(&mut v, &d);
    assert_eq!(names(&v), vec!["a", "c", "b", "d", "e"]);
    let mut v = sample();
    Sorting::new(Col::Size, Order::Desc).sort_with_lustre(&mut v, &d);
    assert_eq!(names(&v), vec!["e", "c", "d", "a", "b"]);
    assert_eq!(d.lookup(&sample()[0]), Some(1));
    assert!(d.is_lustre(&sample()[2]));
    assert!(!d.is_lustre(&sample()[1]));
}

#[test]
fn empty_filter_is_identity_and_filter_is_idempotent() {
    let f = Filter::parse("  ").unwrap();
    assert!(f.expr.is_none());
    assert_eq!(names(&f.filter(sample(), &LustreData::new())), vec!["a", "b", "c", "d", "e"]);
    assert_eq!(names(&Filter::identity().filter(sample(), &LustreData::new())), vec!["a", "b", "c", "d", "e"]);
    let f = Filter::parse("type=ext4 or size<3G").unwrap();
    let once = f.filter(sample(), &LustreData::new());
    assert_eq!(names(&once), vec!["a", "b", "c"]);
    let twice = f.filter(once, &LustreData::new());
    assert_eq!(names(&twice), vec!["a", "b", "c"]);
    assert!(f.filter(Vec::new(), &LustreData::new()).is_empty());
}

#[test]
fn filter_conjunction_and_negation() {
    let f = Filter::parse("size>10G and use<90%").unwrap();
    assert_eq!(names(&f.filter(sample(), &LustreData::new())), vec!["c", "d"]);
    let f = Filter::parse("not (type=tmpfs)").unwrap();
    assert_eq!(names(&f.filter(sample(), &LustreData::new())), vec!["a", "c", "d", "e"]);
    let f = Filter::parse("filesystem ~ \"b\" || mount='/e'").unwrap();
    assert_eq!(names(&f.filter(sample(), &LustreData::new())), vec!["b", "e"]);
    let f = Filter::parse("remote=false && NOT size>=20G").unwrap();
    assert_eq!(names(&f.filter(sample(), &LustreData::new())), vec!["b", "e"]);
    let f = Filter::parse("use>=95%").unwrap();
    assert_eq!(names(&f.filter(sample(), &LustreData::new())), vec!["a"]);
    let f = Filter::parse("label!=x").unwrap();
    assert!(f.filter(sample(), &LustreData::new()).is_empty());
}

#[test]
fn filter_type_mismatch_fails_before_records() {
    let e = Filter::parse("filesystem<5").unwrap_err();
    assert_eq!(e.kind, FilterErrorKind::TypeMismatch);
    assert_eq!(e.raw, "filesystem<5");
    assert!(matches!(Expr::comparison(Col::Size, CmpOp::Contains, "1"), Err(FilterErrorKind::TypeMismatch)));
    assert!(matches!(Expr::comparison(Col::Remote, CmpOp::Lt, "true"), Err(FilterErrorKind::TypeMismatch)));
    assert!(Expr::comparison(Col::Size, CmpOp::Gt, "1G").is_ok());
}

#[test]
fn filter_errors() {
    assert_eq!(Filter::parse("bogus>1").unwrap_err().kind, FilterErrorKind::UnknownColumn);
    assert_eq!(Filter::parse("size & 1").unwrap_err().kind, FilterErrorKind::UnknownOperator);
    assert_eq!(Filter::parse("size 1").unwrap_err().kind, FilterErrorKind::UnknownOperator);
    assert_eq!(Filter::parse("(size>1").unwrap_err().kind, FilterErrorKind::Syntax);
    assert_eq!(Filter::parse("size>1 size<2").unwrap_err().kind, FilterErrorKind::Syntax);
    assert_eq!(Filter::parse("type='x").unwrap_err().kind, FilterErrorKind::Syntax);
    assert_eq!(Filter::parse("()").unwrap_err().kind, FilterErrorKind::Syntax);
    assert_eq!(
        Filter::parse("use<150%").unwrap_err().kind,
        FilterErrorKind::Literal(LiteralError::OutOfRange, 2)
    );
    assert_eq!(
        Filter::parse("size>10Q").unwrap_err().kind,
        FilterErrorKind::Literal(LiteralError::BadUnit, 2)
    );
    let e = Filter::parse("size>x").unwrap_err();
    assert_eq!(e.kind, FilterErrorKind::Literal(LiteralError::Malformed, 2));
    assert_eq!(e.message(), "\"size>x\" can't be parsed as a filter: malformed value");
}

#[test]
fn record_values() {
    let r = rec(1, "a", "ext4", 20 * G, 5 * G);
    assert!(matches!(r.value(Col::Use), Value::Percent(u, s) if u == 5 * G && s == 20 * G));
    assert!(matches!(r.value(Col::Free), Value::Bytes(b) if b == 15 * G));
    assert!(matches!(r.value(Col::Type), Value::Text(ref t) if t == "ext4"));
    assert!(matches!(bare(2, "p").value(Col::Size), Value::Missing));
    assert!(matches!(r.value(Col::LustreUuid), Value::Missing));
    assert_eq!(Value::Missing.compare(&Value::Bytes(0)), 1);
    assert_eq!(Value::Text("ab".to_string()).compare(&Value::Text("b".to_string())), -1);
    assert_eq!(Value::Percent(1, 2).compare(&Value::Percent(50, 100)), 0);
}

#[test]
fn get_filtered_mounts_pipeline() {
    let args = ArgsBuilder::new().build();
    let out = get_filtered_mounts(&args, None, &LustreData::new(), sample());
    assert_eq!(names(&out), vec!["c", "d", "a", "b"]);
    let args = ArgsBuilder::new()
        .all(true)
        .sort(Sorting::new(Col::Filesystem, Order::Asc))
        .filter(Filter::parse("type!=tmpfs").unwrap())
        .build();
    let out = get_filtered_mounts(&args, None, &LustreData::new(), sample());
    assert_eq!(names(&out), vec!["a", "c", "d", "e"]);
    let args = ArgsBuilder::new().build();
    let out = get_filtered_mounts(&args, Some((4, 0)), &LustreData::new(), sample());
    assert_eq!(names(&out), vec!["d"]);
    let mut args = ArgsBuilder::new().build();
    args.lustre_only = true;
    let out = get_filtered_mounts(&args, None, &overlay(), sample());
    assert_eq!(names(&out), vec!["c", "a"]);
}

#[test]
fn get_mounts_sorts_without_filtering() {
    let args = ArgsBuilder::new()
        .sort(Sorting::new(Col::Size, Order::Asc))
        .filter(Filter::parse("type=xfs").unwrap())
        .build();
    let out = get_mounts(&args, None, &LustreData::new(), sample());
    assert_eq!(names(&out), vec!["b", "a", "d", "c"]);
}

#[test]
fn display_names() {
    assert_eq!(decimal(0), "0");
    assert_eq!(decimal(4294967295), "4294967295");
    let mut r = bare(259, "");
    r.dev_minor = 17;
    assert_eq!(r.display_name(), "259:17");
    assert_eq!(bare(1, "sda1").display_name(), "sda1");
}

#[test]
fn tokens_of_expressions() {
    let ts = tokenize("size>=10G AND (fs ~ 'a b' || not remote=true)").unwrap();
    assert_eq!(ts.len(), 14);
    assert!(matches!(&ts[0], Token::Word(w) if w == "size"));
    assert!(matches!(ts[1], Token::Op(CmpOp::Ge)));
    assert!(matches!(&ts[2], Token::Word(w) if w == "10G"));
    assert!(matches!(ts[3], Token::And));
    assert!(matches!(ts[4], Token::LParen));
    assert!(matches!(ts[6], Token::Op(CmpOp::Contains)));
    assert!(matches!(&ts[7], Token::Quoted(q) if q == "a b"));
    assert!(matches!(ts[8], Token::Or));
    assert!(matches!(ts[9], Token::Not));
    assert!(matches!(&ts[10], Token::Word(w) if w == "remote"));
    assert!(matches!(ts[11], Token::Op(CmpOp::Eq)));
    assert!(matches!(ts[13], Token::RParen));
    assert!(tokenize("   ").unwrap().is_empty());
    assert_eq!(tokenize("a ! b").unwrap_err(), FilterErrorKind::UnknownOperator);
    assert_eq!(tokenize("\"open").unwrap_err(), FilterErrorKind::Syntax);
}

#[test]
fn parse_token_sequences() {
    let ts = tokenize("type=ext4 and size<1G or not remote=false").unwrap();
    let e = parse_tokens(&ts).unwrap();
    assert!(matches!(e, Expr::Or(_, _)));
    let ts = tokenize("type=ext4 )").unwrap();
    assert_eq!(parse_tokens(&ts).unwrap_err(), FilterErrorKind::Syntax);
    let ts = tokenize("mount ~ 5").unwrap();
    assert!(parse_tokens(&ts).is_ok());
    let ts = tokenize("size ~ 5").unwrap();
    assert_eq!(parse_tokens(&ts).unwrap_err(), FilterErrorKind::TypeMismatch);
}

#[test]
fn filter_on_overlay_columns() {
    let d = overlay();
    let f = Filter::parse("lustre_component=OST").unwrap();
    assert_eq!(names(&f.filter(sample(), &d)), vec!["c"]);
    assert!(f.filter(sample(), &LustreData::new()).is_empty());
    let f = Filter::parse("lustre_uuid ~ fs-").unwrap();
    assert_eq!(names(&f.filter(sample(), &d)), vec!["a", "c"]);
    let f = Filter::parse("lustre_index>=0").unwrap();
    assert_eq!(names(&f.filter(sample(), &d)), vec!["c"]);
}

#[test]
fn setting_words_and_column_lists() {
    assert_eq!(TriBool::parse("AUTO"), Some(TriBool::Auto));
    assert_eq!(TriBool::parse("true"), Some(TriBool::Yes));
    assert_eq!(TriBool::parse("No"), Some(TriBool::No));
    assert_eq!(TriBool::parse("maybe"), None);
    assert_eq!(Units::parse("Binary"), Some(Units::Binary));
    assert_eq!(Units::parse("si"), Some(Units::Si));
    assert_eq!(Units::parse("bytes"), Some(Units::Bytes));
    assert_eq!(Units::parse("kb"), None);
    assert_eq!(Cols::parse("size, use,TYPE").unwrap().cols, vec![Col::Size, Col::Use, Col::Type]);
    assert!(Cols::parse(" , ").unwrap().is_empty());
    assert_eq!(Cols::parse("size,bogus,use").unwrap_err().raw, "bogus");
}

#[test]
fn literal_decimal_mantissas() {
    assert!(matches!(parse_literal("1.5G", ValueKind::ByteSize), Ok(Value::Bytes(1610612736))));
    assert!(matches!(parse_literal("1.5GB", ValueKind::ByteSize), Ok(Value::Bytes(1500000000))));
    assert!(matches!(parse_literal("0.1k", ValueKind::ByteSize), Ok(Value::Bytes(102))));
    assert!(matches!(parse_literal("1.5", ValueKind::ByteSize), Ok(Value::Bytes(1))));
    assert!(matches!(parse_literal("12.5%", ValueKind::Percentage), Ok(Value::Percent(125, 1000))));
    assert!(matches!(parse_literal("100.0%", ValueKind::Percentage), Ok(Value::Percent(1000, 1000))));
    assert!(matches!(parse_literal("100.5%", ValueKind::Percentage), Err(LiteralError::OutOfRange)));
    assert!(matches!(parse_literal("1.", ValueKind::ByteSize), Err(LiteralError::Malformed)));
    assert!(matches!(parse_literal(".5G", ValueKind::ByteSize), Err(LiteralError::Malformed)));
    assert!(matches!(parse_literal("1.1234567891G", ValueKind::ByteSize), Ok(Value::Bytes(1206302541))));
    assert!(matches!(parse_literal("1.5", ValueKind::PlainNumber), Err(LiteralError::Malformed)));
    let f = Filter::parse("use<12.5% or size>=49.5G").unwrap();
    assert_eq!(names(&f.filter(sample(), &LustreData::new())), vec!["c", "d"]);
}

#[test]
fn sort_errors_quote_like_debug() {
    let e = Sorting::parse("si\"ze").unwrap_err();
    assert_eq!(e.message(), format!("{:?} can't be parsed as a sort expression because {:?} is not a column name", "si\"ze", "si\"ze"));
    let e = Sorting::parse("a\\b\n").unwrap_err();
    assert!(e.message().starts_with(&format!("{:?}", "a\\b\n")));
    let e = Sorting::parse("x\u{1}").unwrap_err();
    assert!(e.message().starts_with(&format!("{:?}", "x\u{1}")));
    let e = Sorting::parse("size-up").unwrap_err();
    assert_eq!(e.reason, "\"up\" is not asc or desc");
    let e: dysk::sorting::ParseSortingError = "bogus desc".parse::<Sorting>().unwrap_err();
    assert_eq!(e.raw, "bogus desc");
    assert_eq!(e.reason, "\"bogus\" is not a column name");
    let f = Filter::parse("type=\"x").unwrap_err();
    assert_eq!(f.message(), format!("{:?} can't be parsed as a filter: syntax error", "type=\"x"));
}

#[test]
fn sort_directive_unicode_separators() {
    assert_eq!(Sorting::parse("size\u{b}asc").unwrap(), Sorting::new(Col::Size, Order::Asc));
    assert_eq!(Sorting::parse("type\u{a0}d").unwrap(), Sorting::new(Col::Type, Order::Desc));
    assert_eq!(Sorting::parse("use\u{2003}desc").unwrap(), Sorting::new(Col::Use, Order::Desc));
    assert_eq!("Size-DESC".parse::<Sorting>().unwrap(), Sorting::new(Col::Size, Order::Desc));
}

#[test]
fn use_share_counts_reserved_blocks() {
    let mut r = rec(1, "a", "ext4", 100, 80);
    r.stats = Some(Stats { size: 100, used: 80, available: 5 });
    assert!(matches!(r.value(Col::Use), Value::Percent(95, 100)));
    assert!(matches!(r.value(Col::UsePercent), Value::Percent(95, 100)));
    assert!(matches!(r.value(Col::FreePercent), Value::Percent(5, 100)));
    let f = Filter::parse("use<90%").unwrap();
    assert!(f.filter(vec![r], &LustreData::new()).is_empty());
    let mut z = rec(2, "z", "ext4", 0, 0);
    z.stats = Some(Stats { size: 0, used: 0, available: 0 });
    assert!(matches!(z.value(Col::Use), Value::Percent(0, 1)));
    assert!(matches!(z.value(Col::Dev), Value::Text(ref t) if t == "2:0"));
    z.uuid = Some("abc".to_string());
    assert!(matches!(z.value(Col::Uuid), Value::Text(ref t) if t == "abc"));
    assert!(matches!(z.value(Col::PartUuid), Value::Missing));
    assert_eq!(Col::parse("iuse_percent").unwrap(), Col::InodesUsePercent);
}

#[test]
fn test_get_mounts_basic() {
    let args = ArgsBuilder::new().build();
    let result = get_mounts(&args, None, &LustreData::new(), sample());
    assert_eq!(names(&result), vec!["c", "d", "a", "b"]);
}

#[test]
fn literal_error_positions_and_suggestions() {
    let e = Filter::parse("type=ext4 and size>10Q").unwrap_err();
    assert_eq!(e.kind, FilterErrorKind::Literal(LiteralError::BadUnit, 6));
    assert_eq!(e.message(), format!("{:?} can't be parsed as a filter: unknown size unit", "type=ext4 and size>10Q"));
    let e = Sorting::parse("\u{a0}").unwrap_err();
    assert!(e.message().starts_with("\"\\u{a0}\""));
    let u = Col::parse("US").unwrap_err();
    assert_eq!(u.suggestions(), vec![Col::Used, Col::Use, Col::UsePercent]);
    assert!(Col::parse("zz").unwrap_err().suggestions().is_empty());
    assert!(Col::parse("").unwrap_err().suggestions().is_empty());
}
