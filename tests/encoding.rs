use varint::codec::{bits_to_i64, bits_to_usize, i64_to_bits, usize_to_bits, vli64, vlusize};

fn eval_unsigned(value: usize, expected: &[u8]) {
    let res = usize_to_bits(value);
    assert_eq!(&res[..], expected);
    match vlusize(&res) {
        Ok((n, consumed)) => {
            assert_eq!(n, value);
            assert_eq!(consumed, res.len());
        }
        Err(e) => panic!("Unexpected error: {:?}", e),
    }
}

fn eval_signed(value: i64, expected: &[u8]) {
    let res = i64_to_bits(value);
    assert_eq!(&res[..], expected);
    match vli64(&res) {
        Ok((n, consumed)) => {
            assert_eq!(n, value);
            assert_eq!(consumed, res.len());
        }
        Err(e) => panic!("Unexpected error: {:?}", e),
    }
}

#[test]
fn test_vlusize() {
    eval_unsigned(0, &[0]);
    eval_unsigned(1, &[1]);
    eval_unsigned(2, &[2]);
    eval_unsigned(3, &[3]);
    eval_unsigned(127, &[127]);
    eval_unsigned(128, &[128, 1]);
    eval_unsigned(129, &[129, 1]);
    eval_unsigned(255, &[255, 1]);
    eval_unsigned(256, &[128, 2]);
    eval_unsigned(383, &[255, 2]);
    eval_unsigned(384, &[128, 3]);
    eval_unsigned(16383, &[255, 127]);
    eval_unsigned(16384, &[128, 128, 1]);
    eval_unsigned(16385, &[129, 128, 1]);
    eval_unsigned(65535, &[255, 255, 3]);
    eval_unsigned(65536, &[128, 128, 4]);
    eval_unsigned(65537, &[129, 128, 4]);
    eval_unsigned(2097151, &[255, 255, 127]);
    eval_unsigned(2097152, &[128, 128, 128, 1]);
    eval_unsigned(2097153, &[129, 128, 128, 1]);
}

#[test]
fn test_vli64() {
    eval_signed(0, &[0]);
    eval_signed(-1, &[1]);
    eval_signed(1, &[2]);
    eval_signed(-2, &[3]);
    eval_signed(2, &[4]);
    eval_signed(-63, &[125]);
    eval_signed(63, &[126]);
    eval_signed(-64, &[127]);
    eval_signed(64, &[128, 1]);
    eval_signed(-65, &[129, 1]);
    eval_signed(-128, &[255, 1]);
    eval_signed(128, &[128, 2]);
    eval_signed(-192, &[255, 2]);
    eval_signed(192, &[128, 3]);
    eval_signed(-8192, &[255, 127]);
    eval_signed(8192, &[128, 128, 1]);
    eval_signed(-8193, &[129, 128, 1]);
    eval_signed(-32768, &[255, 255, 3]);
    eval_signed(32768, &[128, 128, 4]);
    eval_signed(-32769, &[129, 128, 4]);
    eval_signed(-1048576, &[255, 255, 127]);
    eval_signed(1048576, &[128, 128, 128, 1]);
    eval_signed(-1048577, &[129, 128, 128, 1]);
}
