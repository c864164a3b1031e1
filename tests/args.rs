use changer::args::Args;

#[test]
fn port_in_range_is_accepted() {
    assert!(Args::is_good_port_number("7101".to_string()).is_ok());
    assert!(Args::is_good_port_number("1024".to_string()).is_ok());
    assert!(Args::is_good_port_number("65535".to_string()).is_ok());
    assert!(Args::is_good_port_number("+2000".to_string()).is_ok());
}

#[test]
fn port_out_of_range_is_refused() {
    assert!(Args::is_good_port_number("1023".to_string()).is_err());
    assert!(Args::is_good_port_number("65536".to_string()).is_err());
    assert!(Args::is_good_port_number("-7101".to_string()).is_err());
}

#[test]
fn port_that_is_no_number_is_refused() {
    let r = Args::is_good_port_number("abc".to_string());
    assert_eq!(
        r,
        Err("Bad port number 0. Chose a number in this range 1024-65535".to_string())
    );
    assert!(Args::is_good_port_number("".to_string()).is_err());
    assert!(Args::is_good_port_number(" 7101".to_string()).is_err());
}

#[test]
fn hwm_of_one_or_more_is_accepted() {
    assert!(Args::hwm_is_sane("1".to_string()).is_ok());
    assert!(Args::hwm_is_sane("1000".to_string()).is_ok());
}

#[test]
fn hwm_below_one_is_refused() {
    assert_eq!(Args::hwm_is_sane("0".to_string()), Err("HWM 0 too low.".to_string()));
    assert!(Args::hwm_is_sane("-5".to_string()).is_err());
    assert!(Args::hwm_is_sane("many".to_string()).is_err());
    assert!(Args::hwm_is_sane("99999999999".to_string()).is_err());
}
