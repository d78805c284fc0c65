use go_rules::{
    coord_list, from_sgf_coord, is_list, lex, parse, points_list, points_pair_list, string_coords, to_actions,
    to_fragments, to_sgf_coord, Action, ParserToken, PropFragment, SgfError, SgfNode, SgfTree,
};

fn node(s: &str) -> ParserToken {
    ParserToken::Node(String::from(s))
}

fn sample_tokens() -> Vec<ParserToken> {
    vec![
        ParserToken::LParen,
        node(";FF[4]"),
        node(";B[pd]"),
        node(";W[dp]"),
        node(";B[dd]"),
        ParserToken::LParen,
        node(";W[qp]"),
        node(";B[oq]"),
        ParserToken::RParen,
        ParserToken::LParen,
        node(";W[pq]"),
        node(";B[qo]"),
        ParserToken::RParen,
        ParserToken::RParen,
    ]
}

#[test]
fn mod_lex_test() {
    let s = String::from("(;FF[4]  ;B[pd]   ;W[dp];B[dd](;W[qp];B[oq])(;W[pq];B[qo]))");
    assert_eq!(lex(s), sample_tokens());
}

#[test]
fn parse_lex_test() {
    let s = String::from("(;FF[4]  ;B[pd]   ;W[dp];B[dd](;W[qp];B[oq])(;W[pq];B[qo]))");
    assert_eq!(lex(s), sample_tokens());
}

#[test]
fn parse_test() {
    let expected = vec![
        SgfNode {
            actions: vec![Action::Other("FF".to_string(), "4".to_string())],
            children: vec![1],
            parent: None,
        },
        SgfNode { actions: vec![Action::PlayBlack(15, 3)], children: vec![2], parent: Some(0) },
        SgfNode { actions: vec![Action::PlayWhite(3, 15)], children: vec![3], parent: Some(1) },
        SgfNode { actions: vec![Action::PlayBlack(3, 3)], children: vec![4, 6], parent: Some(2) },
        SgfNode { actions: vec![Action::PlayWhite(16, 15)], children: vec![5], parent: Some(3) },
        SgfNode { actions: vec![Action::PlayBlack(14, 16)], children: vec![], parent: Some(4) },
        SgfNode { actions: vec![Action::PlayWhite(15, 16)], children: vec![7], parent: Some(3) },
        SgfNode { actions: vec![Action::PlayBlack(16, 14)], children: vec![], parent: Some(6) },
    ];
    let tree = parse(sample_tokens()).unwrap();
    assert_eq!(tree.nodes(), &expected);
    assert_eq!(tree.current_node(), &expected[0]);
}

#[test]
fn parse_needs_an_opening_paren() {
    assert_eq!(parse(vec![ParserToken::RParen]).unwrap_err(), SgfError::MissingLParen);
    assert_eq!(SgfTree::parse(String::from(";B[aa]")).unwrap_err(), SgfError::MissingLParen);
}

#[test]
fn tree_selection() {
    let mut tree = SgfTree::parse(String::from("(;FF[4];B[aa](;W[bb])(;W[cc]))")).unwrap();
    assert_eq!(tree.select_parent(), Err(SgfError::ParentOfRoot));
    assert_eq!(tree.num_children(), 1);
    assert_eq!(tree.select_child(1), Err(SgfError::ChildDoesntExist));
    assert_eq!(tree.select_child(0), Ok(()));
    assert_eq!(tree.current_node().actions, vec![Action::PlayBlack(0, 0)]);
    assert_eq!(tree.num_children(), 2);
    assert_eq!(tree.select_child(1), Ok(()));
    assert_eq!(tree.current_node().actions, vec![Action::PlayWhite(2, 2)]);
    assert_eq!(
        tree.get_all_parent_action(),
        vec![vec![Action::PlayWhite(2, 2)], vec![Action::PlayBlack(0, 0)]]
    );
    assert_eq!(tree.select_parent(), Ok(()));
    tree.select_root();
    assert_eq!(tree.root().actions, vec![Action::Other("FF".to_string(), "4".to_string())]);
}

#[test]
fn new_text_adds_a_child_or_extends_the_node() {
    let mut tree = SgfTree::new();
    tree.handle_new_text(String::from(";B[cd]"));
    assert_eq!(tree.current_node().actions, vec![Action::PlayBlack(2, 3)]);
    tree.handle_new_text(String::from("C[nice]"));
    assert_eq!(
        tree.current_node().actions,
        vec![Action::PlayBlack(2, 3), Action::Comment("nice".to_string())]
    );
    assert_eq!(tree.nodes().len(), 2);
    assert_eq!(tree.set_root(String::from(";SZ[9]")), Ok(()));
    assert_eq!(tree.root().actions, vec![Action::Size(9, 9)]);
}

#[test]
fn to_frag_test() {
    assert_eq!(
        to_fragments(";AB[aa][bb]W[cc]"),
        vec![
            PropFragment::Name("AB".to_string()),
            PropFragment::Value("aa".to_string()),
            PropFragment::Value("bb".to_string()),
            PropFragment::Name("W".to_string()),
            PropFragment::Value("cc".to_string()),
        ]
    )
}

#[test]
fn to_actions_test() {
    assert_eq!(to_actions(";B[aa]W[bb]"), vec![Action::PlayBlack(0, 0), Action::PlayWhite(1, 1)]);

    assert_eq!(
        to_actions(";AB[aa][bb]W[cc]"),
        vec![Action::AddBlack(vec![(0, 0), (1, 1)]), Action::PlayWhite(2, 2)]
    );

    assert_eq!(
        to_actions(";SQ[aa][bb]AR[ac:ca][ad:da]C[text text text]"),
        vec![
            Action::Square(vec![(0, 0), (1, 1)]),
            Action::Arrow(vec![[(0, 2), (2, 0)], [(0, 3), (3, 0)]]),
            Action::Comment("text text text".to_string()),
        ]
    );
}

#[test]
fn unreadable_properties_are_left_out() {
    assert_eq!(to_actions(";B[a]W[bb]"), vec![Action::PlayWhite(1, 1)]);
    assert_eq!(to_actions(";LB[aa:one][bb:two]"), vec![Action::Label(vec![(0, 0, "one".to_string()), (1, 1, "two".to_string())])]);
}

#[test]
fn to_coord_test() {
    assert_eq!(to_sgf_coord(0).unwrap(), 'a');
    assert_eq!(to_sgf_coord(25).unwrap(), 'z');
    assert_eq!(to_sgf_coord(26).unwrap(), 'A');
    assert_eq!(to_sgf_coord(51).unwrap(), 'Z');
    assert!(to_sgf_coord(52).is_err());
}

#[test]
fn from_coord_test() {
    assert_eq!(from_sgf_coord('a').unwrap(), 0);
    assert_eq!(from_sgf_coord('z').unwrap(), 25);
    assert_eq!(from_sgf_coord('A').unwrap(), 26);
    assert_eq!(from_sgf_coord('Z').unwrap(), 51);
    assert!(from_sgf_coord('5').is_err());
}

#[test]
fn from_coord_rejects_punctuation_between_the_cases() {
    assert_eq!(from_sgf_coord('['), Err(SgfError::InvalidCoordChar));
    assert_eq!(from_sgf_coord('`'), Err(SgfError::InvalidCoordChar));
    assert_eq!(from_sgf_coord('{'), Err(SgfError::InvalidCoordChar));
}

#[test]
fn coordinate_pairs_and_lists() {
    assert_eq!(string_coords("cB"), Ok((2, 27)));
    assert_eq!(string_coords("abc"), Err(SgfError::InvalidLength));
    assert_eq!(string_coords("a1"), Err(SgfError::InvalidCoordChar));
    assert_eq!(
        points_list(&vec!["aa".to_string(), "zZ".to_string()]),
        Ok(vec![(0, 0), (25, 51)])
    );
    assert_eq!(points_list(&vec!["aa".to_string(), "a".to_string()]), Err(SgfError::InvalidLength));
    assert_eq!(points_pair_list(&vec!["aa:bc".to_string()]), Ok(vec![[(0, 0), (1, 2)]]));
    assert_eq!(points_pair_list(&vec!["aa".to_string()]), Err(SgfError::InvalidComposedLength));
    assert_eq!(points_pair_list(&vec!["aa:bb:cc".to_string()]), Err(SgfError::InvalidComposedLength));
    assert_eq!(coord_list("AB", &vec![(0, 0), (26, 1)]), Ok("AB[aa][Ab]".to_string()));
    assert_eq!(coord_list("AB", &vec![(52, 0)]), Err(SgfError::CoordTooBig));
    assert!(is_list("AB"));
    assert!(!is_list("B"));
    assert!(!is_list("GM"));
}

#[test]
fn property_readers() {
    assert_eq!(Action::from_pair("b", "cd"), Ok(Action::PlayBlack(2, 3)));
    assert_eq!(Action::from_pair("W", ""), Ok(Action::PassWhite));
    assert_eq!(Action::from_pair("SZ", "19"), Ok(Action::Size(19, 19)));
    assert_eq!(Action::from_pair("SZ", "13:9"), Ok(Action::Size(13, 9)));
    assert_eq!(Action::from_pair("SZ", "1:2:3"), Err(SgfError::SizeParse));
    assert_eq!(Action::from_pair("SZ", "99999999999999999999999"), Err(SgfError::SizeParse));
    assert_eq!(Action::from_pair("C", "hi"), Ok(Action::Comment("hi".to_string())));
    assert_eq!(Action::from_pair("GN", "x"), Ok(Action::other("GN", "x")));
    assert_eq!(
        Action::from_many("XX", &vec!["1".to_string(), "2".to_string()]),
        Ok(Action::OtherMany("XX".to_string(), vec!["1".to_string(), "2".to_string()]))
    );
    assert_eq!(Action::from_many("LN", &vec!["aa:bb".to_string()]), Ok(Action::Line(vec![[(0, 0), (1, 1)]])));
    assert_eq!(Action::from_many("LB", &vec!["aa".to_string()]), Err(SgfError::InvalidComposedLength));
}

#[test]
fn to_text_test() {
    let s = "(;FF[4];B[pd];W[dp];B[dd](;W[qp];B[oq])(;W[pq];B[qo]))".to_string();

    assert_eq!(s, SgfTree::parse(s.clone()).unwrap().to_text());
}

#[test]
fn actions_are_written_as_properties() {
    assert_eq!(Action::PlayBlack(15, 3).to_sgf_text(), Ok("B[pd]".to_string()));
    assert_eq!(Action::PassWhite.to_sgf_text(), Ok("W[]".to_string()));
    assert_eq!(Action::Size(19, 19).to_sgf_text(), Ok("SZ[19]".to_string()));
    assert_eq!(Action::Size(13, 9).to_sgf_text(), Ok("SZ[13:9]".to_string()));
    assert_eq!(Action::AddWhite(vec![(0, 0), (51, 26)]).to_sgf_text(), Ok("AW[aa][ZA]".to_string()));
    assert_eq!(Action::Label(vec![(2, 3, "x".to_string())]).to_sgf_text(), Ok("LB[cd:x]".to_string()));
    assert_eq!(Action::Line(vec![[(0, 0), (1, 1)]]).to_sgf_text(), Ok("LN[aa:bb]".to_string()));
    assert_eq!(Action::Comment("hi".to_string()).to_sgf_text(), Ok("C[hi]".to_string()));
    assert_eq!(Action::other("GN", "g").to_sgf_text(), Ok("GN[g]".to_string()));
    assert_eq!(
        Action::OtherMany("XX".to_string(), vec!["1".to_string(), "2".to_string()]).to_sgf_text(),
        Ok("XX[1][2]".to_string())
    );
    assert_eq!(Action::NoOp.to_sgf_text(), Ok(String::new()));
    assert_eq!(Action::PlayBlack(52, 0).to_sgf_text(), Err(SgfError::CoordTooBig));
}

#[test]
fn record_round_trip_with_setup_and_markup() {
    let s = "(;SZ[9]AB[aa][bb];B[cc]CR[dd]LB[ee:A](;W[ff])(;W[gg]C[x]))".to_string();
    assert_eq!(SgfTree::parse(s.clone()).unwrap().to_text(), s);
}

#[test]
fn upper_case_name_decides_the_property() {
    assert_eq!(Action::from_upper_pair("B", "b", "cd"), Ok(Action::PlayBlack(2, 3)));
    assert_eq!(Action::from_upper_pair("SZ", "sz", "9"), Ok(Action::Size(9, 9)));
    assert_eq!(Action::from_upper_pair("GN", "gn", "x"), Ok(Action::other("gn", "x")));
    assert_eq!(Action::from_upper_pair("W", "w", "a"), Err(SgfError::InvalidLength));
}

#[test]
fn node_text_is_trimmed_of_white_space() {
    let tokens = lex(String::from("(;B[aa]\t\n ;W[bb]\u{3000})"));
    assert_eq!(
        tokens,
        vec![ParserToken::LParen, ParserToken::Node(String::from(";B[aa]")), ParserToken::Node(String::from(";W[bb]")), ParserToken::RParen]
    );
}

#[test]
fn board_size_comes_from_the_root() {
    let tree = SgfTree::parse(String::from("(;FF[4]SZ[13];B[aa])")).unwrap();
    assert_eq!(tree.board_size(), (13, 13));
    let tree = SgfTree::parse(String::from("(;FF[4];B[aa])")).unwrap();
    assert_eq!(tree.board_size(), (19, 19));
    let tree = SgfTree::parse(String::from("(;SZ[9:7])")).unwrap();
    assert_eq!(tree.board_size(), (9, 7));
}
