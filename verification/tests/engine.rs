use llamadeck::engine::{wait_healthy, EngineOpts, Health, Sight, Watch, DEADLINE_NS};

fn opts() -> EngineOpts {
    EngineOpts {
        bin: "llama-server".to_string(),
        model_path: "m.gguf".to_string(),
        host: "127.0.0.1".to_string(),
        port: 8080,
        ctx: 4096,
        ngl: 99,
    }
}

#[test]
fn the_program_gets_its_arguments() {
    assert_eq!(
        opts().arguments(),
        vec![
            "-m", "m.gguf", "--host", "127.0.0.1", "--port", "8080", "-c", "4096", "-ngl", "99",
            "--jinja",
        ]
    );
}

#[test]
fn the_user_is_told_about_the_start() {
    assert_eq!(
        opts().start_notice(),
        "Запускаю llama-server: llama-server -m m.gguf --port 8080 -c 4096 -ngl 99"
    );
    assert_eq!(
        opts().start_failure("нет"),
        "не удалось запустить llama-server (bin: «llama-server»). \
         Проверь, что файл существует и доступен (или лежит в PATH). Причина: нет"
    );
    assert_eq!(opts().health_url(), "http://127.0.0.1:8080/health");
    assert_eq!(opts().server_url(), "http://127.0.0.1:8080");
    assert_eq!(opts().ready_notice(), "llama-server готов: http://127.0.0.1:8080");
}

#[test]
fn a_round_looks_at_everything_in_turn() {
    assert_eq!(wait_healthy(Watch::Process, Sight::Running), Health::Open(Watch::Clock));
    assert_eq!(wait_healthy(Watch::Clock, Sight::Elapsed(0)), Health::Open(Watch::Health));
    assert_eq!(wait_healthy(Watch::Health, Sight::Status(None)), Health::Open(Watch::Pause));
    assert_eq!(wait_healthy(Watch::Health, Sight::Status(Some(503))), Health::Open(Watch::Pause));
    assert_eq!(wait_healthy(Watch::Pause, Sight::Rested), Health::Open(Watch::Process));
}

#[test]
fn the_server_is_ready_when_it_says_so() {
    assert_eq!(wait_healthy(Watch::Health, Sight::Status(Some(200))), Health::Ready);
    assert_eq!(wait_healthy(Watch::Health, Sight::Status(Some(204))), Health::Open(Watch::Pause));
    assert_eq!(wait_healthy(Watch::Health, Sight::Status(Some(299))), Health::Open(Watch::Pause));
    assert_eq!(wait_healthy(Watch::Health, Sight::Status(Some(199))), Health::Open(Watch::Pause));
    assert_eq!(wait_healthy(Watch::Health, Sight::Status(Some(300))), Health::Open(Watch::Pause));
    assert_eq!(wait_healthy(Watch::Process, Sight::Status(Some(200))), Health::Open(Watch::Process));
}

#[test]
fn an_early_exit_is_a_failure() {
    assert_eq!(
        wait_healthy(Watch::Process, Sight::Exited("exit status: 1".to_string())),
        Health::Failed(
            "llama-server завершился до готовности (код exit status: 1). \
             Частые причины: не хватило VRAM/RAM (попробуй меньше -ngl или меньший -c) \
             либо неверный путь к модели."
                .to_string()
        )
    );
}

#[test]
fn the_deadline_is_five_minutes() {
    assert_eq!(DEADLINE_NS, std::time::Duration::from_secs(300).as_nanos());
    assert_eq!(wait_healthy(Watch::Clock, Sight::Elapsed(DEADLINE_NS)), Health::Open(Watch::Health));
    assert_eq!(
        wait_healthy(Watch::Clock, Sight::Elapsed(DEADLINE_NS + 1)),
        Health::Failed(
            "llama-server не стал готов за 300 с — что-то пошло не так при загрузке модели"
                .to_string()
        )
    );
}
