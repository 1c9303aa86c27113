//! Tests for the line-oriented command reader.

use teolang::commands::Command;
use teolang::param::Param;

#[test]
fn test_new_command_does_not_crash() {
    let name = String::from("test");
    let param = String::from("1, 2, 3");

    let _command = Command::new(name, param);
    assert!(true, "Commands should not crash");
}

#[test]
fn test_new_command_equals_initialized() {
    let name = String::from("test");
    let param = String::from("1, 2, 3");

    let command = Command::new(name.clone(), param.clone());
    let expected = Command {
        commands_name: name,
        commands_param: Param::param_from_vec(vec![
            String::from("1"),
            String::from("2"),
            String::from("3"),
        ]),
    };

    assert_eq!(
        command.commands_name, expected.commands_name,
        "Command name should matched"
    );
    let mut x = 0;
    for i in command.commands_param {
        assert_eq!(i.param, expected.commands_param[x].param);
        x += 1;
    }
}

#[test]
fn test_new_command_trailing_spaces() {
    let name = String::from("test");
    let param = String::from("1, 2,  3");

    let command = Command::new(name, param);
    let expected = vec![String::from("1"), String::from("2"), String::from("3")];

    for (actual_param, expected_param) in command.commands_param.iter().zip(expected.iter()) {
        assert_eq!(
            &actual_param.param, expected_param,
            "{}'s trailing spaces should be removed to {}",
            actual_param.param, expected_param
        );
    }
}

#[test]
fn test_new_command_double_quotes() {
    let name = String::from("test");
    let param = String::from("\"param1, param2\", 3");

    let command = Command::new(name.clone(), param.clone());
    let expected = Command {
        commands_name: name,
        commands_param: Param::param_from_vec(vec![
            String::from("\"param1, param2\""),
            String::from("3"),
        ]),
    };

    let mut x = 0;
    for i in command.commands_param {
        assert_eq!(i.param, expected.commands_param[x].param);
        x += 1;
    }
}

#[test]
fn test_read_from_text() {
    let commands_in_text = String::from("test(1, 2);test2(2, 3)");
    let vec_commands = Command::from_text(commands_in_text);
    let expected = vec![
        Command {
            commands_name: "test".to_string(),
            commands_param: Param::param_from_vec(vec!["1".to_string(), "2".to_string()]),
        },
        Command {
            commands_name: "test2".to_string(),
            commands_param: Param::param_from_vec(vec!["2".to_string(), "3".to_string()]),
        },
    ];

    for (actual, expected) in vec_commands.iter().zip(expected.iter()) {
        assert_eq!(
            actual.commands_name, expected.commands_name,
            "Command name should match"
        );
        let mut x = 0;
        actual.commands_param.iter().for_each(|i| {
            assert_eq!(i.param, expected.commands_param[x].param);
            x += 1;
        });
    }
}

#[test]
fn test_param_classification() {
    let p = Param::new_param(String::from("\"a b\""));
    assert_eq!(p.param_type, "String");
    let p = Param::new_param(String::from("1.5"));
    assert_eq!(p.param_type, "Number");
    let p = Param::new_param(String::from("-2e3"));
    assert_eq!(p.param_type, "Number");
    let p = Param::new_param(String::from("inf"));
    assert_eq!(p.param_type, "Number");
    let p = Param::new_param(String::from("foo"));
    assert_eq!(p.param_type, "Identifier");
    assert_eq!(p.get_value_as_varname(), "foo");
    let p = Param::new_param(String::from("1.2.3"));
    assert_eq!(p.param_type, "Identifier");
}

#[test]
fn test_from_text_skips_empty_pieces() {
    let cmds = Command::from_text(String::from("a(1);;b(2)"));
    assert_eq!(cmds.len(), 2);
    assert_eq!(cmds[0].commands_name, "a");
    assert_eq!(cmds[1].commands_name, "b");
}
