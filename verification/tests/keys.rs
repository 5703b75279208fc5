use s3_util::keygen::{S3KeyGenerator, UtcTimestamp};

#[test]
fn key_with_token_renders_the_documented_shape() {
    let ts = UtcTimestamp::from_epoch_seconds(0);
    let key = S3KeyGenerator::key_with_token("logs", &ts, "tok");
    assert_eq!(key, "logs/1970/01/01/00000000000-tok");
}

#[test]
fn epoch_is_partitioned_into_its_utc_date() {
    // 2023-11-14 22:13:20 UTC.
    let ts = UtcTimestamp::from_epoch_seconds(1_700_000_000);
    assert_eq!(ts.year(), 2023);
    assert_eq!(ts.month(), 11);
    assert_eq!(ts.day(), 14);
    let key = S3KeyGenerator::key_with_token("p", &ts, "t");
    assert_eq!(key, "p/2023/11/14/01700000000-t");
}

#[test]
fn leap_day_is_partitioned_correctly() {
    // 2024-02-29 00:00:00 UTC.
    let ts = UtcTimestamp::from_epoch_seconds(1_709_164_800);
    assert_eq!(ts.year(), 2024);
    assert_eq!(ts.month(), 2);
    assert_eq!(ts.day(), 29);
}

#[test]
fn generated_key_has_prefix_partition_and_token() {
    let ts = UtcTimestamp::from_epoch_seconds(0);
    let key = S3KeyGenerator::date_partitioned_unique_key("logs", &ts);
    let head = "logs/1970/01/01/00000000000-";
    assert!(key.starts_with(head));
    let token = &key[head.len()..];
    assert_eq!(token.len(), 36);
    assert!(token
        .chars()
        .all(|c| c == '-' || c.is_ascii_digit() || ('a'..='f').contains(&c)));
}

#[test]
fn two_keys_in_the_same_second_differ() {
    let ts = UtcTimestamp::from_epoch_seconds(1_700_000_000);
    let k1 = S3KeyGenerator::date_partitioned_unique_key("p", &ts);
    let k2 = S3KeyGenerator::date_partitioned_unique_key("p", &ts);
    assert_ne!(k1, k2);
}

#[test]
fn keys_sort_with_time() {
    let epochs: [u64; 6] = [
        0,
        86_399,
        86_400,
        951_782_400,     // 2000-02-29
        1_700_000_000,   // 2023-11-14
        99_999_999_999,  // the last eleven-digit second, year 5138
    ];
    let mut previous: Option<String> = None;
    for epoch in epochs {
        let ts = UtcTimestamp::from_epoch_seconds(epoch);
        let key = S3KeyGenerator::date_partitioned_unique_key("p", &ts);
        if let Some(ref p) = previous {
            assert!(p < &key, "{} should sort before {}", p, key);
        }
        previous = Some(key);
    }
}
