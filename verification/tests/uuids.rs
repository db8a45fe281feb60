use netlabs::uuids::uuid_to_string;

#[test]
fn hyphenated_lowercase_form() {
    assert_eq!(uuid_to_string(0), "00000000-0000-0000-0000-000000000000");
    assert_eq!(
        uuid_to_string(0x67e5_5044_10b1_426f_9247_bb68_0e5f_e0c8),
        "67e55044-10b1-426f-9247-bb680e5fe0c8"
    );
    assert_eq!(uuid_to_string(u128::MAX), "ffffffff-ffff-ffff-ffff-ffffffffffff");
}
