use rsmt2::parse::{check_sat, success, ResponseError, Step};

#[test]
fn success_answers() {
    assert_eq!(success(b"success\n"), Step::Done(7, Ok(())));
    assert_eq!(success(b"  \n success"), Step::Done(11, Ok(())));
    assert_eq!(success(b"unsupported"), Step::Done(11, Err(ResponseError::Unsupported)));
    assert_eq!(success(b"succ"), Step::Incomplete);
    assert_eq!(success(b"un"), Step::Incomplete);
    assert_eq!(success(b""), Step::Incomplete);
    assert_eq!(success(b" \t\r\n"), Step::Incomplete);
    assert_eq!(success(b"(error \"x\")"), Step::Error);
    assert_eq!(success(b"sucess"), Step::Error);
}

#[test]
fn check_sat_answers() {
    assert_eq!(check_sat(b"sat"), Step::Done(3, Ok(true)));
    assert_eq!(check_sat(b"\nunsat\n"), Step::Done(6, Ok(false)));
    assert_eq!(check_sat(b"unknown"), Step::Done(7, Err(ResponseError::Unknown)));
    assert_eq!(check_sat(b"un"), Step::Incomplete);
    assert_eq!(check_sat(b"unkn"), Step::Incomplete);
    assert_eq!(check_sat(b"s"), Step::Incomplete);
    assert_eq!(check_sat(b"   "), Step::Incomplete);
    assert_eq!(check_sat(b"success"), Step::Error);
    assert_eq!(check_sat(b"x"), Step::Error);
}

#[test]
fn answers_stable_when_more_bytes_arrive() {
    for (s, t) in [(&b"sat"[..], &b"\nunsat"[..]), (b" unsat", b"sat"), (b"unknown", b"x"), (b"oops", b"sat")] {
        let mut st = s.to_vec();
        st.extend_from_slice(t);
        assert_eq!(check_sat(&st), check_sat(s));
    }
    for (s, t) in [(&b"success"[..], &b"success"[..]), (b"unsupported", b"\n"), (b"no", b"success")] {
        let mut st = s.to_vec();
        st.extend_from_slice(t);
        assert_eq!(success(&st), success(s));
    }
}

#[test]
fn incomplete_answer_completes() {
    assert_eq!(check_sat(b"uns"), Step::Incomplete);
    assert_eq!(check_sat(b"unsat"), Step::Done(5, Ok(false)));
}
