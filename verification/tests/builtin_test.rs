use minishell::{
    command_not_found, complete, invocation, split_tokens, Command, Effect, Entry, Host, Output,
};

fn host() -> Host {
    Host {
        home: "/home/user".to_string(),
        cwd: Ok(b"/work/dir".to_vec()),
        search: vec![
            vec![Entry { name: "ls".to_string(), path: "/opt/ls".to_string(), is_file: false }],
            vec![
                Entry { name: "cat".to_string(), path: "/bin/cat".to_string(), is_file: true },
                Entry { name: "ls".to_string(), path: "/bin/ls".to_string(), is_file: true },
            ],
            vec![Entry { name: "ls".to_string(), path: "/usr/bin/ls".to_string(), is_file: true }],
        ],
    }
}

fn bare_host() -> Host {
    Host { home: String::new(), cwd: Err("gone".to_string()), search: Vec::new() }
}

fn buffers() -> Output {
    Output::new(Vec::new(), Vec::new())
}

fn executable(name: &str) -> Command {
    Command::Executable { name: name.to_string() }
}

#[test]
fn test_parse_builtins() {
    assert_eq!(Command::parse("exit"), Command::Exit);
    assert_eq!(Command::parse("echo"), Command::Echo);
    assert_eq!(Command::parse("type"), Command::Type);
    assert_eq!(Command::parse("pwd"), Command::Pwd);
    assert_eq!(Command::parse("cd"), Command::Cd);
}

#[test]
fn test_parse_anything_else_is_an_executable() {
    assert_eq!(Command::parse("ls"), executable("ls"));
    assert_eq!(Command::parse("Echo"), executable("Echo"));
    assert_eq!(Command::parse("ECHO"), executable("ECHO"));
    assert_eq!(Command::parse("echo "), executable("echo "));
    assert_eq!(Command::parse("ech"), executable("ech"));
    assert_eq!(Command::parse("echoo"), executable("echoo"));
    assert_eq!(Command::parse(""), executable(""));
    assert_eq!(Command::parse("/bin/echo"), executable("/bin/echo"));
}

#[test]
fn test_available_commands() {
    assert_eq!(Command::available_commands(), vec!["exit", "echo", "type", "pwd", "cd"]);
}

#[test]
fn test_complete() {
    assert_eq!(complete("").1, vec!["exit ", "echo ", "type ", "pwd ", "cd "]);
    assert_eq!(complete("e").1, vec!["exit ", "echo "]);
    assert_eq!(complete("ec").1, vec!["echo "]);
    assert_eq!(complete("echo").1, vec!["echo "]);
    assert_eq!(complete("cd").1, vec!["cd "]);
    assert_eq!(complete("p").1, vec!["pwd "]);
    assert!(complete("echo ").1.is_empty());
    assert!(complete("x").1.is_empty());
    assert!(complete("E").1.is_empty());
    assert!(complete(" e").1.is_empty());
}

#[test]
fn test_complete_replaces_the_whole_line() {
    assert_eq!(complete("").0, 0);
    assert_eq!(complete("ec").0, 0);
    assert_eq!(complete("nothing like it").0, 0);
}

#[test]
fn test_needs_search_path() {
    assert!(Command::Type.needs_search_path());
    assert!(executable("ls").needs_search_path());
    assert!(!Command::Exit.needs_search_path());
    assert!(!Command::Echo.needs_search_path());
    assert!(!Command::Pwd.needs_search_path());
    assert!(!Command::Cd.needs_search_path());
}

#[test]
fn test_exit_codes() {
    assert_eq!(Command::exit(&[]), Effect::Exit(0));
    assert_eq!(Command::exit(&["0"]), Effect::Exit(0));
    assert_eq!(Command::exit(&["3"]), Effect::Exit(3));
    assert_eq!(Command::exit(&["-1"]), Effect::Exit(-1));
    assert_eq!(Command::exit(&["+12"]), Effect::Exit(12));
    assert_eq!(Command::exit(&["abc"]), Effect::Exit(0));
    assert_eq!(Command::exit(&[""]), Effect::Exit(0));
    assert_eq!(Command::exit(&["99999999999"]), Effect::Exit(0));
    assert_eq!(Command::exit(&["7", "8"]), Effect::Exit(7));
    assert_eq!(Command::exit(&["x", "8"]), Effect::Exit(0));
}

#[test]
fn test_exit_writes_nothing() {
    let mut w = buffers();
    assert_eq!(Command::Exit.execute(&mut w, &["5"], &host()), Effect::Exit(5));
    assert!(w.out.is_empty());
    assert!(w.err.is_empty());
}

#[test]
fn test_echo() {
    let mut w = buffers();
    Command::echo(&mut w, &["hello", "world"]);
    assert_eq!(w.out, b"hello world\n");
    assert!(w.err.is_empty());
    Command::echo(&mut w, &[]);
    assert_eq!(w.out, b"hello world\n\n");
    Command::echo(&mut w, &["a  b", "", "c"]);
    assert_eq!(w.out, b"hello world\n\na  b  c\n");
}

#[test]
fn test_type_of_a_builtin() {
    let mut w = buffers();
    Command::type_cmd(&mut w, &["echo"], &bare_host());
    assert_eq!(w.out, b"echo is a shell builtin\n");
    assert!(w.err.is_empty());
}

#[test]
fn test_type_of_an_unknown_name() {
    let mut w = buffers();
    Command::type_cmd(&mut w, &["nonexistentcmd123"], &host());
    assert_eq!(w.out, b"nonexistentcmd123: not found\n");
    assert!(w.err.is_empty());
}

#[test]
fn test_type_of_an_executable() {
    let mut w = buffers();
    Command::type_cmd(&mut w, &["ls"], &host());
    assert_eq!(w.out, b"ls is /bin/ls\n");
}

#[test]
fn test_type_of_several_names() {
    let mut w = buffers();
    Command::type_cmd(&mut w, &["cd", "cat", "nope", "type", "Exit"], &host());
    assert_eq!(
        w.out,
        b"cd is a shell builtin\ncat is /bin/cat\nnope: not found\ntype is a shell builtin\nExit: not found\n"
    );
    assert!(w.err.is_empty());
}

#[test]
fn test_type_without_arguments() {
    let mut w = buffers();
    assert_eq!(Command::Type.execute(&mut w, &[], &host()), Effect::Done);
    assert_eq!(w.out, b"\n");
}

#[test]
fn test_type_line() {
    assert_eq!(Command::type_line("pwd", &host()), "pwd is a shell builtin");
    assert_eq!(Command::type_line("cat", &host()), "cat is /bin/cat");
    assert_eq!(Command::type_line("dog", &host()), "dog: not found");
}

#[test]
fn test_pwd() {
    let mut w = buffers();
    assert_eq!(Command::pwd(&mut w, &host()), Effect::Done);
    assert_eq!(w.out, b"/work/dir\n");
    assert!(w.err.is_empty());
}

#[test]
fn test_pwd_without_a_working_directory() {
    let mut w = buffers();
    assert_eq!(
        Command::Pwd.execute(&mut w, &[], &bare_host()),
        Effect::Fatal { message: "failed to get current dir".to_string(), cause: "gone".to_string() }
    );
    assert!(w.out.is_empty());
    assert!(w.err.is_empty());
}

#[test]
fn test_replace_with_home_dir() {
    assert_eq!(Command::replace_with_home_dir("~", "/home/user"), "/home/user");
    assert_eq!(Command::replace_with_home_dir("~/", "/home/user"), "/home/user/");
    assert_eq!(Command::replace_with_home_dir("~/a/b", "/home/user"), "/home/user/a/b");
    assert_eq!(Command::replace_with_home_dir("~//a", "/home/user"), "/home/user//a");
    assert_eq!(Command::replace_with_home_dir("~/~", "/home/user"), "/home/user/~");
    assert_eq!(Command::replace_with_home_dir("~foo", "/home/user"), "~foo");
    assert_eq!(Command::replace_with_home_dir("~foo/bar", "/home/user"), "~foo/bar");
    assert_eq!(Command::replace_with_home_dir("a/~", "/home/user"), "a/~");
    assert_eq!(Command::replace_with_home_dir("/~/a", "/home/user"), "/~/a");
    assert_eq!(Command::replace_with_home_dir("/tmp", "/home/user"), "/tmp");
    assert_eq!(Command::replace_with_home_dir("", "/home/user"), "");
    assert_eq!(Command::replace_with_home_dir("~~", "/home/user"), "~~");
    assert_eq!(Command::replace_with_home_dir("é/日本", "/home/user"), "é/日本");
}

#[test]
fn test_replace_with_home_dir_without_a_home() {
    assert_eq!(Command::replace_with_home_dir("~", ""), "");
    assert_eq!(Command::replace_with_home_dir("~/x", ""), "/x");
    assert_eq!(Command::replace_with_home_dir("~x", ""), "~x");
}

#[test]
fn test_cd_without_arguments() {
    let mut w = buffers();
    assert_eq!(Command::cd(&mut w, &[], &host()), Effect::Done);
    assert_eq!(Command::cd(&mut w, &[], &bare_host()), Effect::Done);
    assert!(w.out.is_empty());
    assert!(w.err.is_empty());
}

#[test]
fn test_cd_with_too_many_arguments() {
    let mut w = buffers();
    assert_eq!(Command::cd(&mut w, &["a", "b"], &host()), Effect::Done);
    assert!(w.out.is_empty());
    assert_eq!(w.err, b"cd: too many arguments\n");
}

#[test]
fn test_cd_names_the_directory() {
    let mut w = buffers();
    assert_eq!(Command::cd(&mut w, &["/tmp"], &host()), Effect::ChangeDir("/tmp".to_string()));
    assert_eq!(Command::cd(&mut w, &["~"], &host()), Effect::ChangeDir("/home/user".to_string()));
    assert_eq!(
        Command::cd(&mut w, &["~/src"], &host()),
        Effect::ChangeDir("/home/user/src".to_string())
    );
    assert_eq!(Command::cd(&mut w, &["~root"], &host()), Effect::ChangeDir("~root".to_string()));
    assert!(w.out.is_empty());
    assert!(w.err.is_empty());
}

#[test]
fn test_cd_home_without_a_home() {
    let mut w = buffers();
    assert_eq!(Command::Cd.execute(&mut w, &["~"], &bare_host()), Effect::ChangeDir(String::new()));
    assert_eq!(Command::Cd.execute(&mut w, &[], &bare_host()), Effect::Done);
    assert!(w.out.is_empty());
    assert!(w.err.is_empty());
    Command::cd_failed(&mut w, "");
    assert_eq!(w.out, b"cd: : No such file or directory\n");
}

#[test]
fn test_cd_failed_writes_to_the_output() {
    let mut w = buffers();
    Command::cd_failed(&mut w, "/no/such/dir");
    assert_eq!(w.out, b"cd: /no/such/dir: No such file or directory\n");
    assert!(w.err.is_empty());
}

#[test]
fn test_command_not_found_message() {
    assert_eq!(command_not_found("foo"), b"foo: command not found");
    assert_eq!(command_not_found(""), b": command not found");
    assert_eq!(command_not_found("日本"), "日本: command not found".as_bytes());
    let mut w = b"x".to_vec();
    Command::command_not_found(&mut w, "foo");
    assert_eq!(w, b"xfoo: command not found\n");
}

#[test]
fn test_unknown_executable() {
    let mut w = buffers();
    assert_eq!(executable("nope").execute(&mut w, &["a"], &host()), Effect::Done);
    assert!(w.out.is_empty());
    assert_eq!(w.err, b"nope: command not found\n");
}

#[test]
fn test_known_executable_is_spawned() {
    let mut w = buffers();
    assert_eq!(
        executable("ls").execute(&mut w, &["-l"], &host()),
        Effect::Spawn { name: "ls".to_string(), path: "/bin/ls".to_string() }
    );
    assert!(w.out.is_empty());
    assert!(w.err.is_empty());
}

#[test]
fn test_find_executable_in_path() {
    assert_eq!(Command::find_executable_in_path("ls", &host()), Some("/bin/ls".to_string()));
    assert_eq!(Command::find_executable_in_path("cat", &host()), Some("/bin/cat".to_string()));
    assert_eq!(Command::find_executable_in_path("dog", &host()), None);
    assert_eq!(Command::find_executable_in_path("ls", &bare_host()), None);
}

#[test]
fn test_execute_keeps_what_the_buffers_hold() {
    let mut w = Output::new(b"out".to_vec(), b"err".to_vec());
    assert_eq!(Command::Echo.execute(&mut w, &["x"], &host()), Effect::Done);
    assert_eq!(w.out, b"outx\n");
    assert_eq!(w.err, b"err");
    assert_eq!(Command::Cd.execute(&mut w, &["a", "b"], &host()), Effect::Done);
    assert_eq!(w.out, b"outx\n");
    assert_eq!(w.err, b"errcd: too many arguments\n");
}

#[test]
fn test_invocation() {
    let tokens = vec!["echo", "a", ">", "f", "b"];
    let split = split_tokens(&tokens).unwrap();
    let (command, args) = invocation(&split).unwrap();
    assert_eq!(command, Command::Echo);
    assert_eq!(args, ["a", "b"]);

    let tokens = vec!["ls"];
    let split = split_tokens(&tokens).unwrap();
    let (command, args) = invocation(&split).unwrap();
    assert_eq!(command, executable("ls"));
    assert!(args.is_empty());

    let tokens = vec![">", "f"];
    let split = split_tokens(&tokens).unwrap();
    assert!(invocation(&split).is_none());
}
