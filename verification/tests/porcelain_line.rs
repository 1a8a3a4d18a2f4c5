use fleet_top_core::porcelain_line::PorcelainLine;
use fleet_top_core::divergence::Divergence;
use fleet_top_core::head::Head;
use fleet_top_core::porcelain_error_kind::PorcelainErrorKind;

#[test]
fn reads_the_head_header() {
    assert_eq!(
        PorcelainLine::read("# branch.head feat/login"),
        Ok(PorcelainLine::Head(Head::Branch(String::from(
            "feat/login"
        ))))
    );
    assert_eq!(
        PorcelainLine::read("# branch.head (detached)"),
        Ok(PorcelainLine::Head(Head::Detached))
    );
}

#[test]
fn reads_the_upstream_and_the_divergence() {
    assert_eq!(
        PorcelainLine::read("# branch.upstream origin/main"),
        Ok(PorcelainLine::Upstream(String::from("origin/main")))
    );
    assert_eq!(
        PorcelainLine::read("# branch.ab +2 -1"),
        Ok(PorcelainLine::Divergence(Divergence::new(2_u32, 1_u32)))
    );
}

#[test]
fn ignores_headers_it_does_not_use() {
    let ignored = [
        "# branch.oid (initial)",
        "# branch.oid be1ac856ed7b0fda91270b20c022e7bda6bf8206",
        "# branch.future something",
        "# stash 2",
        "! ignored.log",
    ];
    for line in ignored {
        assert_eq!(
            PorcelainLine::read(line),
            Ok(PorcelainLine::Ignored),
            "{line} を無視しなかった"
        );
    }
}

#[test]
fn counts_the_dirty_entries() {
    let dirty = [
        "1 .M N... 100644 100644 100644 a7c9 a7c9 notes.md",
        "2 R. N... 100644 100644 100644 0cbf 0cbf R100 new.md\told.md",
        "u UU N... 100644 100644 100644 100644 1111 2222 3333 conflict.txt",
        "? scratch/",
    ];
    for line in dirty {
        assert_eq!(
            PorcelainLine::read(line),
            Ok(PorcelainLine::Dirty),
            "{line} を数えなかった"
        );
    }
}

#[test]
fn refuses_a_malformed_ab_header() {
    let refused = [
        "# branch.ab +x -1",
        "# branch.ab +1",
        "# branch.ab 1 -1",
        "# branch.ab +1 1",
        "# branch.ab ++1 -1",
        "# branch.ab + -1",
        "# branch.ab",
    ];
    for line in refused {
        assert_eq!(
            PorcelainLine::read(line),
            Err(PorcelainErrorKind::MalformedHeader),
            "{line} を受けてしまった"
        );
    }
}

#[test]
fn refuses_empty_header_values() {
    assert_eq!(
        PorcelainLine::read("# branch.head"),
        Err(PorcelainErrorKind::MalformedHeader)
    );
    assert_eq!(
        PorcelainLine::read("# branch.upstream"),
        Err(PorcelainErrorKind::MalformedHeader)
    );
}

#[test]
fn refuses_lines_that_are_not_porcelain_v2() {
    let refused = ["z something", "", "#branch.head main", "# something else"];
    for line in refused {
        assert_eq!(
            PorcelainLine::read(line),
            Err(PorcelainErrorKind::UnexpectedLine),
            "{line} を受けてしまった"
        );
    }
}
