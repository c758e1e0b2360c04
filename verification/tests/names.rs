use twobsecret::names::{
    decrypted_file_name, default_protection_mode, exported_public_key_file_name, output_file_name,
    sanitize_filename,
};
use twobsecret::text::{hex_prefix, push_decimal};

#[test]
fn sanitize_replaces_path_separators_and_strips_leading_dots() {
    assert_eq!(sanitize_filename("../etc/passwd"), "_etc_passwd");
    assert_eq!(sanitize_filename("..\\windows\\system32"), "_windows_system32");
}

#[test]
fn sanitize_replaces_every_forbidden_character() {
    assert_eq!(sanitize_filename("a/b\\c\0d:e*f?g\"h<i>j|k"), "a_b_c_d_e_f_g_h_i_j_k");
}

#[test]
fn sanitize_keeps_an_ordinary_name() {
    assert_eq!(sanitize_filename("report 2024.pdf"), "report 2024.pdf");
    assert_eq!(sanitize_filename("árvíztűrő.txt"), "árvíztűrő.txt");
}

#[test]
fn sanitize_strips_leading_spaces_and_dots() {
    assert_eq!(sanitize_filename("  .bashrc"), "bashrc");
    assert_eq!(sanitize_filename(". . x. "), "x. ");
}

#[test]
fn sanitize_empty_or_all_dots_gives_fallback() {
    assert_eq!(sanitize_filename(""), "decrypted_file.bin");
    assert_eq!(sanitize_filename("..."), "decrypted_file.bin");
    assert_eq!(sanitize_filename(" . "), "decrypted_file.bin");
    assert_eq!(sanitize_filename(".."), "decrypted_file.bin");
}

#[test]
fn sanitize_cuts_to_200_bytes() {
    let long = "a".repeat(300);
    assert_eq!(sanitize_filename(&long), "a".repeat(200));
}

#[test]
fn sanitize_does_not_split_a_character() {
    // 'é' takes two bytes in UTF-8: 'a' + 100 of them would be 201 bytes.
    let name = format!("a{}", "é".repeat(100));
    let out = sanitize_filename(&name);
    assert_eq!(out, format!("a{}", "é".repeat(99)));
    assert_eq!(out.len(), 199);
    let exact = "é".repeat(100);
    assert_eq!(sanitize_filename(&exact), exact);
    let four = "😀".repeat(60);
    assert_eq!(sanitize_filename(&four), "😀".repeat(50));
}

#[test]
fn sanitize_is_idempotent_on_samples() {
    for name in ["../etc/passwd", "", "  .x", "a:b", &"é".repeat(150), "ok.txt"] {
        let once = sanitize_filename(name);
        assert_eq!(sanitize_filename(&once), once);
    }
}

#[test]
fn output_names_count_up() {
    assert_eq!(output_file_name("", "x.txt", ".2brecip", 0), "x.txt.2brecip");
    assert_eq!(output_file_name("", "x.txt", ".2brecip", 3), "x.txt_3.2brecip");
    assert_eq!(output_file_name("decrypted_", "x.txt", "", 0), "decrypted_x.txt");
    assert_eq!(output_file_name("decrypted_", "x.txt", "", 12), "decrypted_x.txt_12");
}

#[test]
fn exported_key_file_name() {
    assert_eq!(exported_public_key_file_name("0123abcd"), "recipient_0123abcd.json");
}

#[test]
fn protection_modes() {
    assert_eq!(default_protection_mode(false), "keyring-aes256gcmsiv");
    assert_eq!(default_protection_mode(true), "dpapi");
}

#[test]
fn hex_prefix_takes_half_the_length_in_bytes() {
    assert_eq!(hex_prefix(&[0xab, 0x01, 0xff], 4), "ab01");
    assert_eq!(hex_prefix(&[0xab, 0x01, 0xff], 5), "ab01");
    assert_eq!(hex_prefix(&[0xab, 0x01, 0xff], 100), "ab01ff");
    assert_eq!(hex_prefix(&[0x0f], 0), "");
}

#[test]
fn decimal_digits() {
    for (n, s) in [(0u64, "0"), (7, "7"), (10, "10"), (1048576, "1048576"), (u64::MAX, "18446744073709551615")] {
        let mut out = String::from("#");
        push_decimal(&mut out, n);
        assert_eq!(out, format!("#{s}"));
    }
}

#[test]
fn decrypted_names_keep_only_the_last_component() {
    assert_eq!(decrypted_file_name("../../etc/passwd"), "passwd");
    assert_eq!(decrypted_file_name("dir/.hidden"), "hidden");
    assert_eq!(decrypted_file_name("report.pdf"), "report.pdf");
    assert_eq!(decrypted_file_name("a/.."), "decrypted_file.bin");
    assert_eq!(decrypted_file_name(""), "decrypted_file.bin");
    assert_eq!(decrypted_file_name("x:y*z"), "x_y_z");
}

#[test]
fn plain_header_names_are_only_sanitized() {
    for name in ["a.txt", "  x", "what?.doc", "é.bin", "...x"] {
        assert_eq!(decrypted_file_name(name), sanitize_filename(name));
    }
}
