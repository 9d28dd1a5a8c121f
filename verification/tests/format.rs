use detox_mac::format::{civil, parse_size, parse_spotlight_date, size, stamp, tilde, truncate, GIB, KIB, MIB, TIB};

#[test]
fn formats_each_unit() {
    assert_eq!(size(512), "512 o");
    assert_eq!(size(2 * KIB), "2 Ko");
    assert_eq!(size(3 * MIB + MIB / 2), "3.5 Mo");
    assert_eq!(size(2 * GIB), "2.00 Go");
}

#[test]
fn parses_suffixes() {
    assert_eq!(parse_size("1024").unwrap(), 1024);
    assert_eq!(parse_size("500M").unwrap(), 500 * MIB);
    assert_eq!(parse_size("1.5g").unwrap(), GIB + GIB / 2);
    assert_eq!(parse_size("200 Ko").unwrap(), 200 * KIB);
    assert_eq!(parse_size("2gb").unwrap(), 2 * GIB);
}

#[test]
fn rejects_garbage() {
    assert!(parse_size("beaucoup").is_err());
    assert!(parse_size("12x").is_err());
}

#[test]
fn sizes_round_like_float_formatting() {
    // The integer formatter against the float formatter it stands for.
    let units = [(KIB, 0usize, "Ko"), (MIB, 1, "Mo"), (GIB, 2, "Go"), (TIB, 2, "To")];
    let mut samples: Vec<u64> = Vec::new();
    for unit in [KIB, MIB, GIB, TIB] {
        for k in 1..200u64 {
            samples.push(unit * k / 8);
            samples.push(unit * k / 8 + 1);
            samples.push(unit * k / 40);
            samples.push(unit * k / 200 + k);
            samples.push(unit + unit * k / 100);
        }
    }
    for b in samples {
        let expected = if b >= TIB {
            format!("{:.2} {}", b as f64 / TIB as f64, units[3].2)
        } else if b >= GIB {
            format!("{:.2} {}", b as f64 / GIB as f64, units[2].2)
        } else if b >= MIB {
            format!("{:.1} {}", b as f64 / MIB as f64, units[1].2)
        } else if b >= KIB {
            format!("{:.0} {}", b as f64 / KIB as f64, units[0].2)
        } else {
            format!("{b} o")
        };
        assert_eq!(size(b), expected, "{b}");
    }
}

#[test]
fn parsing_is_exact_and_errors_are_told_apart() {
    assert_eq!(parse_size(".5k").unwrap(), 512);
    assert_eq!(parse_size("1.").unwrap(), 1);
    assert_eq!(parse_size("0.1k").unwrap(), 102);
    assert_eq!(parse_size("3 T").unwrap(), 3 * TIB);
    assert_eq!(parse_size("99999999999999999999t").unwrap(), u64::MAX);
    assert_eq!(parse_size(".").unwrap_err(), "taille invalide : « . »");
    assert_eq!(parse_size("1.2.3").unwrap_err(), "taille invalide : « 1.2.3 »");
    assert_eq!(parse_size("12x").unwrap_err(), "unité inconnue : « x » (attendu : K, M, G, T)");
}

#[test]
fn home_is_shortened() {
    assert_eq!(tilde("/Users/a/Downloads", "/Users/a"), "~/Downloads");
    assert_eq!(tilde("/opt/x", "/Users/a"), "/opt/x");
    assert_eq!(tilde("/opt/x", ""), "/opt/x");
    assert_eq!(truncate("Visual Studio Code", 6), "Visua…");
    assert_eq!(truncate("Code", 6), "Code");
}

#[test]
fn spotlight_dates_are_read_in_utc() {
    assert_eq!(parse_spotlight_date("2023-11-14 22:13:20 +0000"), Some(1_700_000_000));
    assert_eq!(parse_spotlight_date("  1970-01-01 00:00:00 +0000\n"), Some(0));
    assert_eq!(parse_spotlight_date("2024-02-29 12:00:00 -0130"), Some(1_709_208_000 + 5_400));
    // Not a date, or not a real one.
    assert_eq!(parse_spotlight_date("(null)"), None);
    assert_eq!(parse_spotlight_date("2023-02-29 00:00:00 +0000"), None);
    assert_eq!(parse_spotlight_date("2023-13-01 00:00:00 +0000"), None);
    assert_eq!(parse_spotlight_date("1970-01-01 00:00:00 +0100"), None);
}

#[test]
fn run_identifiers_are_the_utc_date_and_time() {
    assert_eq!(stamp(0), "19700101-000000");
    assert_eq!(stamp(1_700_000_000), "20231114-221320");
    assert_eq!(stamp(951_782_400), "20000229-000000");
    assert_eq!(civil(1_709_251_199), (2024, 2, 29, 23, 59, 59));
    assert_eq!(civil(u64::MAX).1 >= 1, true);
}

#[test]
fn only_the_home_directory_itself_becomes_a_tilde() {
    assert_eq!(tilde("/Users/ann/Library/Caches", "/Users/ann"), "~/Library/Caches");
    assert_eq!(tilde("/Users/ann", "/Users/ann"), "~");
    assert_eq!(tilde("/Users/anna/notes.txt", "/Users/ann"), "/Users/anna/notes.txt");
    assert_eq!(tilde("/tmp/x", "/Users/ann"), "/tmp/x");
    assert_eq!(tilde("/Users/ann/x", "/Users/ann/"), "~x");
}
