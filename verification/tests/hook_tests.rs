use agent_core::error::{AgentCoreError, AgentCoreResult};
use agent_core::hook::{
    HandlerRegistry, HandlerScope, HookEventRequest, HookKind, HookName, HookPayload, PointHandler, PointHookDecision,
    PointHookStatus, WrapperHandler, WrapperNext, WrapperRequest, WrapperResponse, WrapperResult, WrapperService,
};
use agent_core::json::{parse_text, Json};

fn json(text: &str) -> Json {
    parse_text(text).unwrap()
}

struct SetStep(&'static str);

impl PointHandler for SetStep {
    fn handle(&self, payload: HookPayload) -> AgentCoreResult<PointHookDecision> {
        Ok(PointHookDecision::Rewrite(payload.with_data(json(self.0))))
    }
}

struct Deny;

impl PointHandler for Deny {
    fn handle(&self, _payload: HookPayload) -> AgentCoreResult<PointHookDecision> {
        Ok(PointHookDecision::Block { reason: "denied".to_string() })
    }
}

struct EmitEvent;

impl PointHandler for EmitEvent {
    fn handle(&self, _payload: HookPayload) -> AgentCoreResult<PointHookDecision> {
        Ok(PointHookDecision::Emit { event: HookEventRequest::new("seen", Json::Null) })
    }
}

struct Rename;

impl PointHandler for Rename {
    fn handle(&self, _payload: HookPayload) -> AgentCoreResult<PointHookDecision> {
        Ok(PointHookDecision::Rewrite(HookPayload::new(HookName::Context)))
    }
}

#[test]
fn point_handlers_rewrite_in_order() {
    let mut registry = HandlerRegistry::new();
    registry.register_point(HookName::Input, 10, SetStep(r#"{"step":2}"#)).unwrap();
    registry.register_point(HookName::Input, 0, SetStep(r#"{"step":1}"#)).unwrap();

    let outcome = registry.run_point(HookPayload::new(HookName::Input)).unwrap();

    assert_eq!(outcome.status, PointHookStatus::Continued);
    assert_eq!(outcome.payload.data, json(r#"{"step":2}"#));
}

#[test]
fn point_handler_can_short_circuit_with_block() {
    let mut registry = HandlerRegistry::new();
    registry.register_point(HookName::ToolCall, 0, Deny).unwrap();

    let outcome = registry.run_point(HookPayload::new(HookName::ToolCall)).unwrap();

    assert_eq!(outcome.status, PointHookStatus::Blocked { reason: "denied".to_string() });
}

#[test]
fn scopes_run_before_orders_and_events_are_collected() {
    let mut registry = HandlerRegistry::new();
    registry.register_point_scoped(HookName::Context, -5, HandlerScope::Run, SetStep(r#"{"by":"run"}"#)).unwrap();
    registry.register_point_scoped(HookName::Context, 50, HandlerScope::CorePreGuard, EmitEvent).unwrap();
    let outcome = registry.run_point(HookPayload::new(HookName::Context)).unwrap();
    assert_eq!(outcome.events.len(), 1);
    assert_eq!(outcome.events[0].name, "seen");
    assert_eq!(outcome.payload.data, json(r#"{"by":"run"}"#));
}

#[test]
fn registration_ids_count_up() {
    let mut registry = HandlerRegistry::new();
    let first = registry.register_point(HookName::Input, 0, Deny).unwrap();
    let second = registry.register_point(HookName::Input, 0, Deny).unwrap();
    assert_eq!(first.id, "handler-1");
    assert_eq!(second.id, "handler-2");
    assert_eq!(first.scope, HandlerScope::Extension);
}

#[test]
fn hooks_of_the_wrong_kind_are_refused() {
    let mut registry = HandlerRegistry::new();
    match registry.register_point(HookName::ProviderRequest, 0, Deny) {
        Err(AgentCoreError::InvalidConfig(t)) => assert_eq!(t, "hook ProviderRequest is not a point hook"),
        _ => panic!("wrapper hook accepted a point handler"),
    }
    match registry.run_point(HookPayload::new(HookName::CustomWrapper("x".to_string()))) {
        Err(AgentCoreError::InvalidInput(t)) => assert_eq!(t, "hook CustomWrapper(\"x\") is not a point hook"),
        _ => panic!("wrapper hook ran as a point"),
    }
    assert_eq!(HookName::CustomPoint("p".to_string()).kind(), HookKind::Point);
    assert_eq!(HookName::NodeExecution.kind(), HookKind::Wrapper);
}

#[test]
fn renaming_the_hook_is_refused() {
    let mut registry = HandlerRegistry::new();
    registry.register_point(HookName::Input, 0, Rename).unwrap();
    match registry.run_point(HookPayload::new(HookName::Input)) {
        Err(AgentCoreError::InvalidInput(t)) => assert_eq!(t, "point handler cannot rewrite hook name"),
        _ => panic!("rename accepted"),
    }
}

struct Mark(&'static str);

impl WrapperHandler for Mark {
    fn handle(&self, request: WrapperRequest, next: &WrapperNext) -> AgentCoreResult<WrapperResult> {
        next.run(request.with_metadata(self.0, Json::Bool(true)))
    }
}

struct Terminal;

impl WrapperService for Terminal {
    fn call(&self, request: WrapperRequest) -> AgentCoreResult<WrapperResult> {
        Ok(WrapperResult::Continue(WrapperResponse::new(Json::Object(request.metadata))))
    }
}

#[test]
fn wrapper_layers_compose_around_terminal_in_order() {
    let mut registry = HandlerRegistry::new();
    registry.register_wrapper(HookName::NodeExecution, 0, Mark("outer")).unwrap();
    registry.register_wrapper(HookName::NodeExecution, 10, Mark("inner")).unwrap();

    let result = registry.run_wrapper(WrapperRequest::new(HookName::NodeExecution), Terminal).unwrap();

    let WrapperResult::Continue(response) = result else {
        panic!("unexpected wrapper result");
    };
    assert_eq!(response.data.get("outer"), Some(&Json::Bool(true)));
    assert_eq!(response.data.get("inner"), Some(&Json::Bool(true)));
}

struct MarkRewritten;

impl PointHandler for MarkRewritten {
    fn handle(&self, payload: HookPayload) -> AgentCoreResult<PointHookDecision> {
        Ok(PointHookDecision::Rewrite(payload.with_metadata("rewritten", Json::Bool(true))))
    }
}

struct EmitContractEvent;

impl PointHandler for EmitContractEvent {
    fn handle(&self, _payload: HookPayload) -> AgentCoreResult<PointHookDecision> {
        Ok(PointHookDecision::Emit { event: HookEventRequest::new("contract.point", json(r#"{"ok":true}"#)) })
    }
}

struct EchoService;

impl WrapperService for EchoService {
    fn call(&self, request: WrapperRequest) -> AgentCoreResult<WrapperResult> {
        let mut data = Json::new_object();
        data.set("data", request.data);
        data.set("metadata", Json::Object(request.metadata));
        Ok(WrapperResult::Continue(WrapperResponse::new(data)))
    }
}

struct MetadataService;

impl WrapperService for MetadataService {
    fn call(&self, request: WrapperRequest) -> AgentCoreResult<WrapperResult> {
        Ok(WrapperResult::Continue(WrapperResponse::new(Json::Object(request.metadata))))
    }
}

struct AddLayer;

impl WrapperHandler for AddLayer {
    fn handle(&self, request: WrapperRequest, next: &WrapperNext) -> AgentCoreResult<WrapperResult> {
        next.run(request.with_metadata("layer", Json::Bool(true)))
    }
}

fn metadata_value<'a>(metadata: &'a [(String, Json)], key: &str) -> Option<&'a Json> {
    metadata.iter().find(|(k, _)| k == key).map(|(_, v)| v)
}

fn contract_request() -> WrapperRequest {
    WrapperRequest::new(HookName::NodeExecution)
        .with_data(json(r#"{"node":"start"}"#))
        .with_metadata("before", Json::Bool(true))
}

#[test]
fn hook_public_api_contract() {
    assert_eq!(HookName::Input.kind(), HookKind::Point);
    assert_eq!(HookName::NodeExecution.kind(), HookKind::Wrapper);

    let payload = HookPayload::new(HookName::Input)
        .with_data(json(r#"{"step":1}"#))
        .with_metadata("source", Json::str_of("contract"));
    assert_eq!(payload.data.get("step").and_then(|v| v.as_u64()), Some(1));

    let mut registry = HandlerRegistry::new();
    let point_registration = registry
        .register_point_scoped(HookName::Input, 0, HandlerScope::Run, MarkRewritten)
        .unwrap();
    assert_eq!(point_registration.kind, agent_core::hook::HandlerKind::Point);
    assert_eq!(point_registration.scope, HandlerScope::Run);
    registry.register_point(HookName::Input, 10, EmitContractEvent).unwrap();
    let outcome = registry.run_point(payload).unwrap();
    assert_eq!(outcome.status, PointHookStatus::Continued);
    assert_eq!(outcome.events.len(), 1);
    assert_eq!(metadata_value(&outcome.payload.metadata, "rewritten"), Some(&Json::Bool(true)));

    let blocked = HandlerRegistry::new().run_point(HookPayload::new(HookName::ToolCall)).unwrap();
    assert_eq!(blocked.status, PointHookStatus::Continued);
    let _decisions = [
        PointHookDecision::Continue,
        PointHookDecision::Block { reason: "block".to_string() },
        PointHookDecision::Stop { reason: "stop".to_string() },
    ];

    let response = WrapperResponse::new(json(r#"{"ok":true}"#)).with_metadata("after", Json::Bool(true));
    assert_eq!(metadata_value(&response.metadata, "after"), Some(&Json::Bool(true)));

    let next = WrapperNext::new(Box::new(EchoService));
    assert!(matches!(next.run(contract_request()).unwrap(), WrapperResult::Continue(_)));

    let wrapper_registration = registry.register_wrapper(HookName::NodeExecution, 0, AddLayer).unwrap();
    assert_eq!(wrapper_registration.kind, agent_core::hook::HandlerKind::Wrapper);
    let wrapped = registry.run_wrapper(contract_request(), MetadataService).unwrap();
    let WrapperResult::Continue(wrapped_response) = wrapped else {
        panic!("expected continue wrapper result");
    };
    assert_eq!(wrapped_response.data.get("layer"), Some(&Json::Bool(true)));

    let _wrapper_results = [
        WrapperResult::Rewrite(WrapperResponse::new(json(r#"{"ok":true}"#)).with_metadata("after", Json::Bool(true))),
        WrapperResult::Retry { reason: "retry".to_string() },
        WrapperResult::Recover {
            messages: vec![agent_core::message::RunMessage::assistant(vec![agent_core::message::ContentBlock::text("recover")]).unwrap()],
        },
        WrapperResult::Stop { reason: "stop".to_string() },
        WrapperResult::Fail { reason: "fail".to_string() },
    ];
}
