use duxnet::commands::{
    create_escrow_response, decode_signature, failure_message, get_aoi_key_response, message_type_from,
    parse_currency, payable_currency, received_currency, register_aoi_key_response, register_service_response,
    send_message_response, submit_task_response, task_from_request, CreateEscrowResponse, GetAOIKeyResponse,
    RegisterAOIKeyResponse, RegisterServiceResponse, SubmitTaskRequest, SubmitTaskResponse,
};
use duxnet::error::CoreError;
use duxnet::simulation::{
    amount_for, currency_for, did_for, draw, event_for, interaction_for, next_event, service_for, task_for,
    SimulatedEvent,
};
use duxnet::types::{AOIKey, Currency, MessageResponse, MessageType, ServiceId, TaskId, TaskRequirements};

#[test]
fn currencies_are_parsed_in_any_case() {
    assert_eq!(parse_currency("btc"), Some(Currency::BTC));
    assert_eq!(parse_currency("Usdc"), Some(Currency::USDC));
    assert_eq!(parse_currency("DUX"), Some(Currency::DUX));
    assert_eq!(parse_currency("euro"), None);
    assert_eq!(payable_currency("ETH"), Some(Currency::ETH));
    assert_eq!(payable_currency("eth"), None);
    assert_eq!(payable_currency("DUX"), None);
    assert_eq!(received_currency("DOGE"), Currency::DOGE);
    assert_eq!(received_currency("DUX"), Currency::USDC);
    assert_eq!(received_currency("whatever"), Currency::USDC);
}

#[test]
fn message_types_are_named_by_words() {
    assert_eq!(message_type_from("text"), MessageType::Text);
    assert_eq!(message_type_from("file"), MessageType::File);
    assert_eq!(message_type_from("service_request"), MessageType::ServiceRequest);
    assert_eq!(message_type_from("task_update"), MessageType::TaskUpdate);
    assert_eq!(message_type_from("escrow_update"), MessageType::EscrowUpdate);
    assert_eq!(message_type_from("reputation_update"), MessageType::ReputationUpdate);
    assert_eq!(message_type_from("system"), MessageType::System);
    assert_eq!(message_type_from("File"), MessageType::Text);
    assert_eq!(message_type_from(""), MessageType::Text);
}

#[test]
fn signatures_travel_in_base64() {
    assert_eq!(decode_signature("aGVsbG8="), b"hello".to_vec());
    assert_eq!(decode_signature(""), Vec::<u8>::new());
    assert_eq!(decode_signature("AAEC/w=="), vec![0, 1, 2, 255]);
    assert_eq!(decode_signature("not base64!"), Vec::<u8>::new());
    assert_eq!(decode_signature("aGVsbG8"), Vec::<u8>::new());
}

#[test]
fn a_task_request_gives_the_parts_of_a_task() {
    let request = SubmitTaskRequest {
        service_id: "svc".to_string(),
        payload: "päy".to_string(),
        cpu_cores: 4,
        memory_mb: 512,
        timeout_seconds: 30,
    };
    assert_eq!(
        task_from_request(&request),
        (
            ServiceId("svc".to_string()),
            "päy".as_bytes().to_vec(),
            TaskRequirements { cpu_cores: 4, memory_mb: 512, timeout_seconds: 30 }
        )
    );
}

#[test]
fn answers_say_what_happened() {
    assert_eq!(failure_message("Failed to x", CoreError::NoRecipients), "Failed to x: no-recipients");
    assert_eq!(
        register_service_response(Ok(ServiceId("s1".to_string()))),
        RegisterServiceResponse {
            service_id: "s1".to_string(),
            success: true,
            message: "Service registered successfully".to_string()
        }
    );
    assert_eq!(
        register_service_response(Err(CoreError::DuplicateId)),
        RegisterServiceResponse {
            service_id: String::new(),
            success: false,
            message: "Failed to register service: identifier already in use".to_string()
        }
    );
    assert_eq!(
        submit_task_response(Ok(TaskId("t1".to_string()))),
        SubmitTaskResponse { task_id: "t1".to_string(), success: true, message: "Task submitted successfully".to_string() }
    );
    assert_eq!(
        submit_task_response(Err(CoreError::EscrowNotFunded)),
        SubmitTaskResponse {
            task_id: String::new(),
            success: false,
            message: "Failed to submit task: escrow is not funded".to_string()
        }
    );
    assert_eq!(
        create_escrow_response(Ok("e1".to_string())),
        CreateEscrowResponse {
            escrow_id: "e1".to_string(),
            success: true,
            message: "Escrow created successfully".to_string()
        }
    );
    assert_eq!(
        create_escrow_response(Err(CoreError::DuplicateId)).message,
        "Failed to create escrow: identifier already in use"
    );
    assert_eq!(
        register_aoi_key_response(Ok(())),
        RegisterAOIKeyResponse { success: true, message: "AOI key registered successfully".to_string() }
    );
    assert_eq!(
        register_aoi_key_response(Err(CoreError::Malformed)),
        RegisterAOIKeyResponse { success: false, message: "Failed to register AOI key: malformed payload".to_string() }
    );
    let key = AOIKey { service_id: ServiceId("s".to_string()), key_data: "secret".to_string(), created_at: 1 };
    assert_eq!(
        get_aoi_key_response(Some(key)),
        GetAOIKeyResponse { key_data: Some("secret".to_string()), success: true, message: "AOI key found".to_string() }
    );
    assert_eq!(
        get_aoi_key_response(None),
        GetAOIKeyResponse { key_data: None, success: false, message: "AOI key not found".to_string() }
    );
    let sent = MessageResponse { message_id: "m".to_string(), success: true, message: "ok".to_string() };
    assert_eq!(send_message_response(Ok(sent.clone())), sent);
    assert_eq!(
        send_message_response(Err(CoreError::NotAuthorized)),
        MessageResponse {
            message_id: String::new(),
            success: false,
            message: "Failed to send message: signer is not authorized".to_string()
        }
    );
}

#[test]
fn a_draw_stands_for_an_event() {
    assert_eq!(event_for(0), SimulatedEvent::Transaction);
    assert_eq!(event_for(1), SimulatedEvent::ServiceRegistration);
    assert_eq!(event_for(2), SimulatedEvent::TaskSubmission);
    assert_eq!(event_for(3), SimulatedEvent::ReputationUpdate);
    assert_eq!(event_for(u64::MAX), SimulatedEvent::ReputationUpdate);
    assert_eq!(currency_for(10), Currency::BTC);
    assert_eq!(currency_for(11), Currency::ETH);
    assert_eq!(amount_for(0), 10);
    assert_eq!(amount_for(1999), 1009);
    assert_eq!(did_for("did:duxnet:test-user-", 7), "did:duxnet:test-user-7");
    assert_eq!(did_for("did:duxnet:user-", (1u64 << 32) + 5), "did:duxnet:user-5");
    let s = service_for(3);
    assert_eq!((s.name.as_str(), s.description.as_str(), s.price), ("Blockchain Verification", "Smart contract validation", 300));
    assert_eq!(service_for(9).name, "Machine Learning Training");
    let t = task_for(1);
    assert_eq!(t.0, ServiceId("image-analysis".to_string()));
    assert_eq!(t.1, b"Detect objects in surveillance footage".to_vec());
    assert_eq!(t.2, TaskRequirements { cpu_cores: 2, memory_mb: 1024, timeout_seconds: 3600 });
    assert_eq!(interaction_for(0), "service_provided");
    assert_eq!(interaction_for(4), "task_completed");
    assert_eq!(interaction_for(5), "escrow_finalized");
}

#[test]
fn draws_differ() {
    let draws: Vec<u64> = (0..8).map(|_| draw()).collect();
    assert!(draws.iter().any(|d| *d != draws[0]));
    let event = next_event();
    assert!(matches!(
        event,
        SimulatedEvent::Transaction
            | SimulatedEvent::ServiceRegistration
            | SimulatedEvent::TaskSubmission
            | SimulatedEvent::ReputationUpdate
    ));
}
