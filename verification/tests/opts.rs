use blur::opts::{Flag, Opts, OptsError};

fn words(line: &[&str]) -> Vec<String> {
    line.iter().map(|w| w.to_string()).collect()
}

#[test]
fn image_alone_gives_the_defaults() {
    let opts = Opts::new(words(&["blur", "in.jpg"])).unwrap();
    assert_eq!(
        opts,
        Opts {
            radius: 10,
            sigma: "10".to_string(),
            original: "in.jpg".to_string(),
            blurred: None,
            n_threads: 10
        }
    );
}

#[test]
fn long_options_are_read() {
    let opts = Opts::new(words(&[
        "blur", "--radius", "3", "--sigma", "2.5", "--threads", "4", "in.jpg", "out.jpg",
    ]))
    .unwrap();
    assert_eq!(
        opts,
        Opts {
            radius: 3,
            sigma: "2.5".to_string(),
            original: "in.jpg".to_string(),
            blurred: Some("out.jpg".to_string()),
            n_threads: 4
        }
    );
}

#[test]
fn short_options_are_read_in_any_order() {
    let opts =
        Opts::new(words(&["blur", "in.png", "-t", "64", "out.png", "-s", "0.5", "-r", "255"]))
            .unwrap();
    assert_eq!(
        opts,
        Opts {
            radius: 255,
            sigma: "0.5".to_string(),
            original: "in.png".to_string(),
            blurred: Some("out.png".to_string()),
            n_threads: 64
        }
    );
}

#[test]
fn option_given_twice_counts_as_given_last() {
    let opts = Opts::new(words(&["blur", "-r", "1", "-r", "2", "a.jpg"])).unwrap();
    assert_eq!(opts.radius, 2);
}

#[test]
fn last_of_the_later_paths_is_the_destination() {
    let opts = Opts::new(words(&["blur", "a.jpg", "b.jpg", "c.jpg"])).unwrap();
    assert_eq!(opts.original, "a.jpg");
    assert_eq!(opts.blurred, Some("c.jpg".to_string()));
}

#[test]
fn number_may_have_a_plus_sign_and_zeros() {
    let opts = Opts::new(words(&["blur", "-r", "+007", "-t", "+12", "a.jpg"])).unwrap();
    assert_eq!(opts.radius, 7);
    assert_eq!(opts.n_threads, 12);
}

#[test]
fn sigma_is_kept_as_written() {
    let opts = Opts::new(words(&["blur", "-s", "not a number", "a.jpg"])).unwrap();
    assert_eq!(opts.sigma, "not a number");
}

#[test]
fn more_than_nine_words_are_too_many() {
    let line = words(&["blur", "a", "b", "c", "d", "e", "f", "g", "h", "i"]);
    assert_eq!(Opts::new(line), Err(OptsError::TooManyArguments));
    let nine = words(&["blur", "a", "b", "c", "d", "e", "f", "g", "h"]);
    assert_eq!(Opts::new(nine).unwrap().blurred, Some("h".to_string()));
}

#[test]
fn too_many_words_are_seen_before_anything_else() {
    let line = words(&["blur", "-h", "-r", "x", "d", "e", "f", "g", "h", "i"]);
    assert_eq!(Opts::new(line), Err(OptsError::TooManyArguments));
}

#[test]
fn option_without_value() {
    assert_eq!(
        Opts::new(words(&["blur", "a.jpg", "-r"])),
        Err(OptsError::MissingValue(Flag::Radius))
    );
    assert_eq!(
        Opts::new(words(&["blur", "a.jpg", "--sigma"])),
        Err(OptsError::MissingValue(Flag::Sigma))
    );
    assert_eq!(
        Opts::new(words(&["blur", "--threads"])),
        Err(OptsError::MissingValue(Flag::Threads))
    );
}

#[test]
fn value_that_is_no_number() {
    for bad in ["", "+", "-1", "256", "1.5", " 3", "3 ", "x", "99999999999999999999999"] {
        assert_eq!(
            Opts::new(words(&["blur", "a.jpg", "-r", bad])),
            Err(OptsError::InvalidValue(Flag::Radius))
        );
    }
    for bad in ["", "-4", "four", "18446744073709551616"] {
        assert_eq!(
            Opts::new(words(&["blur", "a.jpg", "-t", bad])),
            Err(OptsError::InvalidValue(Flag::Threads))
        );
    }
}

#[test]
fn value_is_taken_even_where_it_looks_like_an_option() {
    let opts = Opts::new(words(&["blur", "-s", "-h", "a.jpg"])).unwrap();
    assert_eq!(opts.sigma, "-h");
    assert_eq!(
        Opts::new(words(&["blur", "-r", "-h", "a.jpg"])),
        Err(OptsError::InvalidValue(Flag::Radius))
    );
}

#[test]
fn help_is_asked_for() {
    assert_eq!(Opts::new(words(&["blur", "--help"])), Err(OptsError::HelpRequested));
    assert_eq!(Opts::new(words(&["blur", "a.jpg", "-h", "-r"])), Err(OptsError::HelpRequested));
}

#[test]
fn image_is_missing() {
    assert_eq!(Opts::new(words(&["blur"])), Err(OptsError::MissingOriginal));
    assert_eq!(Opts::new(words(&["blur", "-r", "3"])), Err(OptsError::MissingOriginal));
    assert_eq!(Opts::new(Vec::new()), Err(OptsError::MissingOriginal));
}

#[test]
fn messages_name_the_option() {
    assert_eq!(OptsError::TooManyArguments.message(), "Too many arguments");
    assert_eq!(
        OptsError::MissingValue(Flag::Radius).message(),
        "Expected a value after --radius|-r"
    );
    assert_eq!(OptsError::MissingValue(Flag::Sigma).message(), "Expected a value after --sigma|-s");
    assert_eq!(
        OptsError::MissingValue(Flag::Threads).message(),
        "Expected a value after --threads|-t"
    );
    assert_eq!(
        OptsError::InvalidValue(Flag::Radius).message(),
        "Expected a number after --radius|-r"
    );
    assert_eq!(OptsError::InvalidValue(Flag::Sigma).message(), "Expected a float after --sigma|-s");
    assert_eq!(
        OptsError::InvalidValue(Flag::Threads).message(),
        "Expected a number after --threads|-t"
    );
    assert_eq!(OptsError::MissingOriginal.message(), "Expected an original image");
    assert_eq!(OptsError::HelpRequested.message(), "Help requested");
}
