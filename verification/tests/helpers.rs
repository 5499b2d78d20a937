use ca1d::{
    check_index_fits, from_char, from_digit, idx_mod, idx_select, make_config, validate_opts, CA,
};

#[test]
fn digits_render_and_read_back() {
    assert_eq!(from_digit(&0), '0');
    assert_eq!(from_digit(&9), '9');
    assert_eq!(from_digit(&10), 'a');
    assert_eq!(from_digit(&35), 'z');
    assert_eq!(from_char('0'), 0);
    assert_eq!(from_char('7'), 7);
    assert_eq!(from_char('f'), 15);
    assert_eq!(from_char('F'), 15);
    assert_eq!(from_char('z'), 35);
}

#[test]
fn print_config_strips_zero_runs() {
    assert_eq!(CA::print_config(vec![0, 0, 1, 2, 0, 10, 0, 0]), "120a");
    assert_eq!(CA::print_config(vec![1, 2]), "12");
    assert_eq!(CA::print_config(vec![0, 0, 0]), "");
    assert_eq!(CA::print_config(vec![]), "");
    assert_eq!(CA::print_config(vec![35]), "z");
}

#[test]
fn print_config_ignores_zero_padding() {
    let core = vec![1, 0, 2];
    let padded = vec![0, 0, 1, 0, 2, 0];
    assert_eq!(CA::print_config(core), CA::print_config(padded));
}

#[test]
fn idx_mod_rolls_over_the_ends() {
    assert_eq!(idx_mod(0, 5), 0);
    assert_eq!(idx_mod(4, 5), 4);
    assert_eq!(idx_mod(5, 5), 0);
    assert_eq!(idx_mod(7, 5), 2);
    assert_eq!(idx_mod(-1, 5), 4);
    assert_eq!(idx_mod(-5, 5), 0);
    assert_eq!(idx_mod(-7, 5), 3);
    assert_eq!(idx_mod(-1, 1), 0);
}

#[test]
fn idx_select_spaces_symbols_over_the_palette() {
    assert_eq!(idx_select(0, 4, 5), 0);
    assert_eq!(idx_select(1, 4, 5), 1);
    assert_eq!(idx_select(2, 4, 5), 2);
    assert_eq!(idx_select(3, 4, 5), 3);
    assert_eq!(idx_select(0, 2, 24), 0);
    assert_eq!(idx_select(1, 2, 24), 23);
    assert_eq!(idx_select(4, 5, 5), 4);
}

#[test]
fn validate_opts_checks_each_parameter() {
    assert!(validate_opts(3, 3, "0", "012"));
    assert!(validate_opts(2, 1, "0", "@"));
    assert!(validate_opts(36, 5, "01010", "z"));
    assert!(!validate_opts(1, 3, "0", "0"));
    assert!(!validate_opts(37, 3, "0", "0"));
    assert!(!validate_opts(3, 2, "0", "0"));
    assert!(!validate_opts(3, 3, "01", "0"));
    assert!(!validate_opts(3, 3, "012", "0"));
    assert!(!validate_opts(3, 3, "0", "013"));
    assert!(!validate_opts(3, 3, "0", "0 1"));
}

#[test]
fn make_config_centers_the_digits() {
    assert_eq!(make_config(7, 3, "12"), vec![0, 0, 1, 2, 0, 0]);
    assert_eq!(make_config(6, 3, "12"), vec![0, 0, 1, 2, 0, 0]);
    assert_eq!(make_config(2, 16, "af"), vec![10, 15]);
    assert_eq!(make_config(5, 2, ""), vec![0, 0, 0, 0]);
}

#[test]
fn index_fit_is_checked_at_run_time() {
    assert!(check_index_fits(false, 3, 3));
    assert!(check_index_fits(false, 2, 31));
    assert!(!check_index_fits(false, 36, 13));
    assert!(check_index_fits(true, 36, 13));
}
