use aether::dsl::{parse_dsl, tokenize, Command};

#[test]
fn test_tokenizer_simple() {
    let tokens = tokenize("init 30 1920x1080 srgb").unwrap();
    assert_eq!(tokens, vec!["init", "30", "1920x1080", "srgb"]);
}

#[test]
fn test_tokenizer_quotes() {
    let tokens = tokenize("draw_text @img1 \"Hello World\" Arial 24").unwrap();
    assert_eq!(tokens, vec!["draw_text", "@img1", "Hello World", "Arial", "24"]);
}

#[test]
fn tokenizer_refuses_unclosed_quote() {
    assert!(tokenize("draw_text @img1 \"Hello").is_err());
}

#[test]
fn test_parser_init() {
    let cmd = parse_dsl("init 25 1280x720 rec2020").unwrap();
    match cmd {
        Command::Init { fps, resolution, colorspace } => {
            assert_eq!(fps.unwrap().parse::<f32>().unwrap(), 25.0);
            assert_eq!(resolution, Some("1280x720".to_string()));
            assert_eq!(colorspace, Some("rec2020".to_string()));
        }
        other => panic!("unexpected command {:?}", other),
    }
}

#[test]
fn test_parser_canvas() {
    let cmd = parse_dsl("canvas 640 480 green").unwrap();
    assert_eq!(cmd, Command::Canvas { width: 640, height: 480, color: "green".to_string() });
}

#[test]
fn test_parser_generative_commands() {
    let cmd = parse_dsl("image \"A cute kitten\" mock/image").unwrap();
    assert!(matches!(cmd, Command::GenerateImage { .. }));

    let cmd2 = parse_dsl("status @g123").unwrap();
    assert!(matches!(cmd2, Command::GenerationStatus { .. }));

    let cmd3 = parse_dsl("cancel @g123").unwrap();
    assert!(matches!(cmd3, Command::CancelGeneration { .. }));

    let cmd4 = parse_dsl("generate storyboard-scratch \"test prompt\"").unwrap();
    assert!(matches!(cmd4, Command::GenerateStoryboardScratch { .. }));

    let cmd5 = parse_dsl("generate image \"test prompt\"").unwrap();
    assert!(matches!(cmd5, Command::GenerateImage { .. }));

    let cmd6 = parse_dsl("edit image @img1 \"test prompt\"").unwrap();
    assert!(matches!(cmd6, Command::EditImage { .. }));

    let cmd7 = parse_dsl("generate video-ingredients @img1 @a1 --prompt \"test prompt\"").unwrap();
    assert!(matches!(cmd7, Command::GenerateVideoFromIngredients { .. }));

    let cmd8 = parse_dsl("edit video @v1 \"test prompt\"").unwrap();
    assert!(matches!(cmd8, Command::EditVideo { .. }));

    let cmd9 = parse_dsl("generation status @g1").unwrap();
    assert!(matches!(cmd9, Command::GenerationStatus { .. }));

    let cmd10 = parse_dsl("generation cancel @g1").unwrap();
    assert!(matches!(cmd10, Command::CancelGeneration { .. }));
}

#[test]
fn parser_refuses_unknown_command() {
    assert!(parse_dsl("frobnicate @v1").is_err());
}

#[test]
fn odd_number_of_quotes_is_refused() {
    assert_eq!(tokenize("say \"a\" \"b"), Err("Unclosed double quote".to_string()));
    assert_eq!(tokenize("say \"a\" \"b c\""), Ok(vec!["say".to_string(), "a".to_string(), "b c".to_string()]));
    assert_eq!(tokenize("\"\" x"), Ok(vec!["x".to_string()]));
}

#[test]
fn tokens_without_quotes_are_the_words() {
    let line = "  trim\t@v1   0  10 \n";
    let words: Vec<String> = line.split_whitespace().map(String::from).collect();
    assert_eq!(tokenize(line), Ok(words));
}

#[test]
fn command_words_ignore_case() {
    assert_eq!(parse_dsl("UNDO"), parse_dsl("undo"));
    assert_eq!(parse_dsl("UNDO"), Ok(Command::Undo));
    assert_eq!(parse_dsl("Generate IMAGE \"a cat\""), parse_dsl("generate image \"a cat\""));
    assert_eq!(parse_dsl("Canvas 640 480 green"), parse_dsl("canvas 640 480 green"));
}

#[test]
fn unknown_command_is_named_in_lowercase() {
    assert_eq!(parse_dsl("FROB @v1"), Err("Unknown command 'frob'".to_string()));
}
